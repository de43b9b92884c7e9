use vstd::prelude::*;
use crate::bytes_util::subvec;

verus! {

/// The key whose value is the post-extraction shell command, ASCII `"exec"`.
pub open spec fn exec_key() -> Seq<u8> {
    seq![101u8, 120u8, 101u8, 99u8]
}

/// The key whose value is the suggested extraction directory, ASCII `"dir"`.
pub open spec fn dir_key() -> Seq<u8> {
    seq![100u8, 105u8, 114u8]
}

/// The directives carried by a config entry, at the specification level.
#[verifier::ext_equal]
pub ghost struct CfgView {
    pub exec_cmd: Option<Seq<u8>>,
    pub dir_name: Option<Seq<u8>>,
}

/// The directives carried by a config entry: an optional post-extraction
/// command and an optional suggested directory name.
#[derive(Debug)]
pub struct ConfigValues {
    pub exec_cmd: Option<Vec<u8>>,
    pub dir_name: Option<Vec<u8>>,
}

impl View for ConfigValues {
    type V = CfgView;

    open spec fn view(&self) -> CfgView {
        CfgView {
            exec_cmd: match self.exec_cmd {
                Some(v) => Some(v@),
                None => None,
            },
            dir_name: match self.dir_name {
                Some(v) => Some(v@),
                None => None,
            },
        }
    }
}

/// The directives of an entirely absent or empty config entry.
pub open spec fn empty_cfg() -> CfgView {
    CfgView { exec_cmd: None, dir_name: None }
}

/// Bytes that surrounding-whitespace trimming removes: space, tab, carriage return.
pub open spec fn is_ws(b: u8) -> bool {
    b == 32 || b == 9 || b == 13
}

/// `s` with leading whitespace removed.
pub open spec fn trim_front(s: Seq<u8>) -> Seq<u8>
    decreases s.len(),
{
    if s.len() > 0 && is_ws(s[0]) {
        trim_front(s.skip(1))
    } else {
        s
    }
}

/// `s` with trailing whitespace removed.
pub open spec fn trim_back(s: Seq<u8>) -> Seq<u8>
    decreases s.len(),
{
    if s.len() > 0 && is_ws(s.last()) {
        trim_back(s.drop_last())
    } else {
        s
    }
}

/// `s` with surrounding whitespace removed.
pub open spec fn spec_trim(s: Seq<u8>) -> Seq<u8> {
    trim_back(trim_front(s))
}

/// Split a line at its first `=`: the part before it and the part after it,
/// or nothing when the line carries no `=` at all.
pub open spec fn split_eq(line: Seq<u8>) -> Option<(Seq<u8>, Seq<u8>)>
    decreases line.len(),
{
    if line.len() == 0 {
        None
    } else if line[0] == 61 {
        Some((Seq::empty(), line.skip(1)))
    } else {
        match split_eq(line.skip(1)) {
            None => None,
            Some(kv) => Some((seq![line[0]] + kv.0, kv.1)),
        }
    }
}

/// One `key=value` line applied to already-collected directives: a recognized
/// key overrides the earlier value, an unrecognized key and a line without `=`
/// are ignored.
pub open spec fn apply_line(c: CfgView, line: Seq<u8>) -> CfgView {
    match split_eq(line) {
        None => c,
        Some(kv) => {
            let key = spec_trim(kv.0);
            let val = spec_trim(kv.1);
            if key == exec_key() {
                CfgView { exec_cmd: Some(val), dir_name: c.dir_name }
            } else if key == dir_key() {
                CfgView { exec_cmd: c.exec_cmd, dir_name: Some(val) }
            } else {
                c
            }
        },
    }
}

/// Fold of the line parser over raw content: `cur` is the line read so far,
/// `acc` the directives collected so far; a newline closes the current line,
/// and a final line without a newline still counts.
pub open spec fn parse_fold(s: Seq<u8>, cur: Seq<u8>, acc: CfgView) -> CfgView
    decreases s.len(),
{
    if s.len() == 0 {
        if cur.len() == 0 {
            acc
        } else {
            apply_line(acc, cur)
        }
    } else if s[0] == 10 {
        parse_fold(s.skip(1), Seq::empty(), apply_line(acc, cur))
    } else {
        parse_fold(s.skip(1), cur.push(s[0]), acc)
    }
}

/// The directives carried by config-entry content: one `key=value` pair per
/// line, keys and values trimmed, later lines overriding earlier ones,
/// unrecognized keys ignored.
pub open spec fn spec_parse_config(s: Seq<u8>) -> CfgView {
    parse_fold(s, Seq::empty(), empty_cfg())
}

/// The content the packer writes into the config entry: an `exec=` line when a
/// post-extraction command was asked for, then a `dir=` line when the input was
/// a directory, each closed by a newline; possibly empty.
pub open spec fn spec_config_bytes(e: Option<Seq<u8>>, d: Option<Seq<u8>>) -> Seq<u8> {
    (match e {
        Some(v) => exec_key() + seq![61u8] + v + seq![10u8],
        None => Seq::empty(),
    }) + (match d {
        Some(v) => dir_key() + seq![61u8] + v + seq![10u8],
        None => Seq::empty(),
    })
}

/// Index of the first `=` in `line`, or the line's length when there is none.
fn find_eq(line: &Vec<u8>) -> (r: usize)
    ensures
        r <= line@.len(),
        forall|j: int| 0 <= j < r ==> line@[j] != 61,
        r < line@.len() ==> line@[r as int] == 61,
{
    let n = line.len();
    let mut i: usize = 0;
    while i < n
        invariant
            n == line@.len(),
            i <= n,
            forall|j: int| 0 <= j < i ==> line@[j] != 61,
        decreases n - i,
    {
        if line[i] == 61 {
            return i;
        }
        i += 1;
    }
    n
}

/// `split_eq` computed from the position of the first `=`.
proof fn lemma_split_eq_at(line: Seq<u8>, i: int)
    requires
        0 <= i < line.len(),
        line[i] == 61,
        forall|j: int| 0 <= j < i ==> line[j] != 61,
    ensures
        split_eq(line) == Some((line.subrange(0, i), line.skip(i + 1))),
    decreases i,
{
    if i == 0 {
        assert(line.subrange(0, 0) =~= Seq::<u8>::empty());
    } else {
        lemma_split_eq_at(line.skip(1), i - 1);
        assert(line.skip(1).subrange(0, i - 1) =~= line.subrange(1, i));
        assert(line.skip(1).skip(i) =~= line.skip(i + 1));
        assert(seq![line[0]] + line.subrange(1, i) =~= line.subrange(0, i));
    }
}

/// A line without `=` splits to nothing.
proof fn lemma_split_eq_none(line: Seq<u8>)
    requires
        forall|j: int| 0 <= j < line.len() ==> line[j] != 61,
    ensures
        split_eq(line) is None,
    decreases line.len(),
{
    if line.len() > 0 {
        lemma_split_eq_none(line.skip(1));
    }
}

/// Trimming the front removes exactly the leading run of whitespace.
proof fn lemma_trim_front_at(s: Seq<u8>, a: int)
    requires
        0 <= a <= s.len(),
        forall|j: int| 0 <= j < a ==> is_ws(s[j]),
        a < s.len() ==> !is_ws(s[a]),
    ensures
        trim_front(s) == s.skip(a),
    decreases a,
{
    if a == 0 {
        assert(s.skip(0) =~= s);
    } else {
        lemma_trim_front_at(s.skip(1), a - 1);
        assert(s.skip(1).skip(a - 1) =~= s.skip(a));
    }
}

/// Trimming the back removes exactly the trailing run of whitespace.
proof fn lemma_trim_back_at(s: Seq<u8>, b: int)
    requires
        0 <= b <= s.len(),
        forall|j: int| b <= j < s.len() ==> is_ws(s[j]),
        b > 0 ==> !is_ws(s[b - 1]),
    ensures
        trim_back(s) == s.take(b),
    decreases s.len(),
{
    if b < s.len() {
        lemma_trim_back_at(s.drop_last(), b);
        assert(s.drop_last().take(b) =~= s.take(b));
    } else {
        assert(s.take(b) =~= s);
    }
}

/// Surrounding-whitespace trimming, executable form.
pub fn trim(s: &Vec<u8>) -> (r: Vec<u8>)
    ensures
        r@ == spec_trim(s@),
{
    let n = s.len();
    let mut a: usize = 0;
    while a < n && (s[a] == 32 || s[a] == 9 || s[a] == 13)
        invariant
            n == s@.len(),
            a <= n,
            forall|j: int| 0 <= j < a ==> is_ws(s@[j]),
        decreases n - a,
    {
        a += 1;
    }
    let mut b: usize = n;
    while b > a && (s[b - 1] == 32 || s[b - 1] == 9 || s[b - 1] == 13)
        invariant
            n == s@.len(),
            a <= b <= n,
            forall|j: int| b <= j < n ==> is_ws(s@[j]),
        decreases b,
    {
        b -= 1;
    }
    proof {
        lemma_trim_front_at(s@, a as int);
        if b == a {
            lemma_trim_back_at(s@.skip(a as int), 0);
        } else {
            lemma_trim_back_at(s@.skip(a as int), b - a);
        }
        assert(s@.skip(a as int).take(b - a) =~= s@.subrange(a as int, b as int));
    }
    subvec(s, a, b)
}

/// One line applied to the directives collected so far, executable form.
pub fn apply_line_exec(acc: &mut ConfigValues, line: &Vec<u8>)
    ensures
        final(acc)@ == apply_line(old(acc)@, line@),
{
    let i = find_eq(line);
    if i == line.len() {
        proof {
            lemma_split_eq_none(line@);
        }
        return ;
    }
    proof {
        lemma_split_eq_at(line@, i as int);
    }
    let raw_key = subvec(line, 0, i);
    let raw_val = subvec(line, i + 1, line.len());
    let key = trim(&raw_key);
    let val = trim(&raw_val);
    proof {
        assert(line@.subrange(i + 1, line@.len() as int) =~= line@.skip(i + 1));
    }
    if key.len() == 4 && key[0] == 101 && key[1] == 120 && key[2] == 101 && key[3] == 99 {
        proof {
            assert(key@ =~= exec_key());
        }
        acc.exec_cmd = Some(val);
    } else if key.len() == 3 && key[0] == 100 && key[1] == 105 && key[2] == 114 {
        proof {
            assert(key@ =~= dir_key());
            assert(key@ != exec_key());
        }
        acc.dir_name = Some(val);
    } else {
        proof {
            if key@ == exec_key() {
                assert(key@.len() == 4 && key@[0] == 101 && key@[1] == 120 && key@[2] == 101
                    && key@[3] == 99);
            }
            if key@ == dir_key() {
                assert(key@.len() == 3 && key@[0] == 100 && key@[1] == 105 && key@[2] == 114);
            }
        }
    }
}

/// Parse config-entry content into its directives, executable form.
pub fn parse_config(content: &Vec<u8>) -> (r: ConfigValues)
    ensures
        r@ == spec_parse_config(content@),
{
    let n = content.len();
    let mut acc = ConfigValues { exec_cmd: None, dir_name: None };
    let mut cur: Vec<u8> = Vec::new();
    let mut i: usize = 0;
    proof {
        assert(content@.skip(0) =~= content@);
        assert(acc@ == empty_cfg());
    }
    while i < n
        invariant
            n == content@.len(),
            i <= n,
            spec_parse_config(content@) == parse_fold(content@.skip(i as int), cur@, acc@),
        decreases n - i,
    {
        let ghost pre_cur = cur@;
        let ghost pre_acc = acc@;
        let b = content[i];
        proof {
            assert(content@.skip(i as int)[0] == b);
            assert(content@.skip(i as int).skip(1) =~= content@.skip(i + 1));
        }
        if b == 10 {
            apply_line_exec(&mut acc, &cur);
            cur = Vec::new();
            proof {
                assert(parse_fold(content@.skip(i as int), pre_cur, pre_acc) == parse_fold(
                    content@.skip(i + 1),
                    Seq::<u8>::empty(),
                    apply_line(pre_acc, pre_cur),
                ));
            }
        } else {
            cur.push(b);
        }
        i += 1;
    }
    if cur.len() > 0 {
        apply_line_exec(&mut acc, &cur);
    }
    proof {
        assert(content@.skip(n as int) =~= Seq::<u8>::empty());
    }
    acc
}

/// One line applied to the first-match directory search: once a value is
/// found, later lines change nothing.
pub open spec fn fd_line(acc: Option<Seq<u8>>, line: Seq<u8>) -> Option<Seq<u8>> {
    if acc is Some {
        acc
    } else {
        match split_eq(line) {
            None => acc,
            Some(kv) => if spec_trim(kv.0) == dir_key() {
                Some(spec_trim(kv.1))
            } else {
                acc
            },
        }
    }
}

/// Fold of the first-match directory search over raw content, with the same
/// line discipline as `parse_fold`.
pub open spec fn fd_fold(s: Seq<u8>, cur: Seq<u8>, acc: Option<Seq<u8>>) -> Option<Seq<u8>>
    decreases s.len(),
{
    if s.len() == 0 {
        if cur.len() == 0 {
            acc
        } else {
            fd_line(acc, cur)
        }
    } else if s[0] == 10 {
        fd_fold(s.skip(1), Seq::empty(), fd_line(acc, cur))
    } else {
        fd_fold(s.skip(1), cur.push(s[0]), acc)
    }
}

/// The trimmed value of the first `dir=` line of config-entry content, or
/// nothing when no line carries a trimmed `dir` key.
pub open spec fn spec_first_dir(s: Seq<u8>) -> Option<Seq<u8>> {
    fd_fold(s, Seq::empty(), None)
}

/// One line applied to the first-match directory search, executable form.
fn fd_line_exec(acc: &mut Option<Vec<u8>>, line: &Vec<u8>)
    ensures
        crate::pack::view_opt(*final(acc)) == fd_line(crate::pack::view_opt(*old(acc)), line@),
{
    if acc.is_some() {
        return ;
    }
    let i = find_eq(line);
    if i == line.len() {
        proof {
            lemma_split_eq_none(line@);
        }
        return ;
    }
    proof {
        lemma_split_eq_at(line@, i as int);
    }
    let raw_key = subvec(line, 0, i);
    let key = trim(&raw_key);
    proof {
        assert(line@.subrange(i + 1, line@.len() as int) =~= line@.skip(i + 1));
    }
    if key.len() == 3 && key[0] == 100 && key[1] == 105 && key[2] == 114 {
        proof {
            assert(key@ =~= dir_key());
        }
        let raw_val = subvec(line, i + 1, line.len());
        let val = trim(&raw_val);
        *acc = Some(val);
    } else {
        proof {
            if key@ == dir_key() {
                assert(key@.len() == 3 && key@[0] == 100 && key@[1] == 105 && key@[2] == 114);
            }
        }
    }
}

/// Find the first `dir=` line of config-entry content, executable form.
pub fn parse_config_first_dir(content: &Vec<u8>) -> (r: Option<Vec<u8>>)
    ensures
        crate::pack::view_opt(r) == spec_first_dir(content@),
{
    let n = content.len();
    let mut acc: Option<Vec<u8>> = None;
    let mut cur: Vec<u8> = Vec::new();
    let mut i: usize = 0;
    proof {
        assert(content@.skip(0) =~= content@);
    }
    while i < n
        invariant
            n == content@.len(),
            i <= n,
            spec_first_dir(content@) == fd_fold(
                content@.skip(i as int),
                cur@,
                crate::pack::view_opt(acc),
            ),
        decreases n - i,
    {
        let ghost pre_cur = cur@;
        let ghost pre_acc = crate::pack::view_opt(acc);
        let b = content[i];
        proof {
            assert(content@.skip(i as int)[0] == b);
            assert(content@.skip(i as int).skip(1) =~= content@.skip(i + 1));
        }
        if b == 10 {
            fd_line_exec(&mut acc, &cur);
            cur = Vec::new();
            proof {
                assert(fd_fold(content@.skip(i as int), pre_cur, pre_acc) == fd_fold(
                    content@.skip(i + 1),
                    Seq::<u8>::empty(),
                    fd_line(pre_acc, pre_cur),
                ));
            }
        } else {
            cur.push(b);
        }
        i += 1;
    }
    if cur.len() > 0 {
        fd_line_exec(&mut acc, &cur);
    }
    proof {
        assert(content@.skip(n as int) =~= Seq::<u8>::empty());
    }
    acc
}

/// Folding the parser over one newline-closed line applies that line and
/// carries on with the rest.
proof fn lemma_parse_fold_line(line: Seq<u8>, rest: Seq<u8>, cur: Seq<u8>, acc: CfgView)
    requires
        forall|j: int| 0 <= j < line.len() ==> line[j] != 10,
    ensures
        parse_fold(line + seq![10u8] + rest, cur, acc) == parse_fold(
            rest,
            Seq::empty(),
            apply_line(acc, cur + line),
        ),
    decreases line.len(),
{
    let s = line + seq![10u8] + rest;
    if line.len() == 0 {
        assert(s[0] == 10);
        assert(s.skip(1) =~= rest);
        assert(cur + line =~= cur);
    } else {
        assert(s[0] == line[0]);
        assert(s.skip(1) =~= line.skip(1) + seq![10u8] + rest);
        lemma_parse_fold_line(line.skip(1), rest, cur.push(line[0]), acc);
        assert(cur.push(line[0]) + line.skip(1) =~= cur + line);
    }
}

/// An `exec=` line with a trim-stable value sets exactly the command.
proof fn lemma_apply_exec_line(acc: CfgView, v: Seq<u8>)
    requires
        spec_trim(v) == v,
    ensures
        apply_line(acc, exec_key() + seq![61u8] + v) == (CfgView {
            exec_cmd: Some(v),
            dir_name: acc.dir_name,
        }),
{
    let line = exec_key() + seq![61u8] + v;
    assert(line[0] == 101 && line[1] == 120 && line[2] == 101 && line[3] == 99);
    assert(line[4] == 61);
    lemma_split_eq_at(line, 4);
    assert(line.subrange(0, 4) =~= exec_key());
    assert(line.skip(5) =~= v);
    assert(spec_trim(exec_key()) == exec_key());
}

/// A `dir=` line with a trim-stable value sets exactly the directory name.
proof fn lemma_apply_dir_line(acc: CfgView, v: Seq<u8>)
    requires
        spec_trim(v) == v,
    ensures
        apply_line(acc, dir_key() + seq![61u8] + v) == (CfgView {
            exec_cmd: acc.exec_cmd,
            dir_name: Some(v),
        }),
{
    let line = dir_key() + seq![61u8] + v;
    assert(line[0] == 100 && line[1] == 105 && line[2] == 114);
    assert(line[3] == 61);
    lemma_split_eq_at(line, 3);
    assert(line.subrange(0, 3) =~= dir_key());
    assert(line.skip(4) =~= v);
    assert(spec_trim(dir_key()) == dir_key());
    assert(dir_key() != exec_key());
}

/// Round trip of the config entry: parsing the content the packer builds
/// recovers exactly the directives that were put in, for values that carry no
/// newline and no surrounding whitespace. In particular, when no directory
/// name was put in (a single-file input), no `dir` directive comes out.
pub proof fn lemma_config_round_trip(e: Option<Seq<u8>>, d: Option<Seq<u8>>)
    requires
        e matches Some(v) ==> (forall|j: int| 0 <= j < v.len() ==> v[j] != 10) && spec_trim(v)
            == v,
        d matches Some(v) ==> (forall|j: int| 0 <= j < v.len() ==> v[j] != 10) && spec_trim(v)
            == v,
    ensures
        spec_parse_config(spec_config_bytes(e, d)) == (CfgView { exec_cmd: e, dir_name: d }),
{
    let s = spec_config_bytes(e, d);
    let d_part = match d {
        Some(v) => dir_key() + seq![61u8] + v + seq![10u8],
        None => Seq::<u8>::empty(),
    };
    match e {
        Some(ve) => {
        let line_e = exec_key() + seq![61u8] + ve;
        assert forall|j: int| 0 <= j < line_e.len() implies line_e[j] != 10 by {
            if j == 0 {
                assert(line_e[0] == 101);
            } else if j == 1 {
                assert(line_e[1] == 120);
            } else if j == 2 {
                assert(line_e[2] == 101);
            } else if j == 3 {
                assert(line_e[3] == 99);
            } else if j == 4 {
                assert(line_e[4] == 61);
            } else {
                assert(line_e[j] == ve[j - 5]);
            }
        }
        assert(s =~= line_e + seq![10u8] + d_part);
        lemma_parse_fold_line(line_e, d_part, Seq::empty(), empty_cfg());
        assert(Seq::<u8>::empty() + line_e =~= line_e);
        lemma_apply_exec_line(empty_cfg(), ve);
        let acc1 = CfgView { exec_cmd: Some(ve), dir_name: None };
        assert(parse_fold(s, Seq::empty(), empty_cfg()) == parse_fold(
            d_part,
            Seq::empty(),
            acc1,
        ));
        lemma_parse_after_exec(acc1, d);
        },
        None => {
            assert(s =~= d_part);
            lemma_parse_after_exec(empty_cfg(), d);
        },
    }
}

/// Folding the parser over just the optional `dir=` line sets exactly the
/// directory directive.
proof fn lemma_parse_after_exec(acc: CfgView, d: Option<Seq<u8>>)
    requires
        d matches Some(v) ==> (forall|j: int| 0 <= j < v.len() ==> v[j] != 10) && spec_trim(v)
            == v,
    ensures
        parse_fold(
            match d {
                Some(v) => dir_key() + seq![61u8] + v + seq![10u8],
                None => Seq::<u8>::empty(),
            },
            Seq::empty(),
            acc,
        ) == (CfgView {
            exec_cmd: acc.exec_cmd,
            dir_name: match d {
                Some(v) => Some(v),
                None => acc.dir_name,
            },
        }),
{
    match d {
        Some(vd) => {
        let line_d = dir_key() + seq![61u8] + vd;
        let d_part = dir_key() + seq![61u8] + vd + seq![10u8];
        assert forall|j: int| 0 <= j < line_d.len() implies line_d[j] != 10 by {
            if j == 0 {
                assert(line_d[0] == 100);
            } else if j == 1 {
                assert(line_d[1] == 105);
            } else if j == 2 {
                assert(line_d[2] == 114);
            } else if j == 3 {
                assert(line_d[3] == 61);
            } else {
                assert(line_d[j] == vd[j - 4]);
            }
        }
        assert(d_part =~= line_d + seq![10u8] + Seq::<u8>::empty());
        lemma_parse_fold_line(line_d, Seq::empty(), Seq::empty(), acc);
        assert(Seq::<u8>::empty() + line_d =~= line_d);
        lemma_apply_dir_line(acc, vd);
        },
        None => {},
    }
}

/// Folding the first-match search over one newline-closed line applies that
/// line and carries on with the rest.
proof fn lemma_fd_fold_line(line: Seq<u8>, rest: Seq<u8>, cur: Seq<u8>, acc: Option<Seq<u8>>)
    requires
        forall|j: int| 0 <= j < line.len() ==> line[j] != 10,
    ensures
        fd_fold(line + seq![10u8] + rest, cur, acc) == fd_fold(
            rest,
            Seq::empty(),
            fd_line(acc, cur + line),
        ),
    decreases line.len(),
{
    let s = line + seq![10u8] + rest;
    if line.len() == 0 {
        assert(s[0] == 10);
        assert(s.skip(1) =~= rest);
        assert(cur + line =~= cur);
    } else {
        assert(s[0] == line[0]);
        assert(s.skip(1) =~= line.skip(1) + seq![10u8] + rest);
        lemma_fd_fold_line(line.skip(1), rest, cur.push(line[0]), acc);
        assert(cur.push(line[0]) + line.skip(1) =~= cur + line);
    }
}

/// An `exec=` line leaves the first-match directory search alone.
proof fn lemma_fd_exec_line(acc: Option<Seq<u8>>, v: Seq<u8>)
    ensures
        fd_line(acc, exec_key() + seq![61u8] + v) == acc,
{
    let line = exec_key() + seq![61u8] + v;
    assert(line[0] == 101 && line[1] == 120 && line[2] == 101 && line[3] == 99);
    assert(line[4] == 61);
    lemma_split_eq_at(line, 4);
    assert(line.subrange(0, 4) =~= exec_key());
    assert(spec_trim(exec_key()) == exec_key());
    assert(exec_key() != dir_key());
}

/// A `dir=` line with a trim-stable value resolves the first-match search to
/// that value, when nothing was found before it.
proof fn lemma_fd_dir_line(v: Seq<u8>)
    requires
        spec_trim(v) == v,
    ensures
        fd_line(None, dir_key() + seq![61u8] + v) == Some(v),
{
    let line = dir_key() + seq![61u8] + v;
    assert(line[0] == 100 && line[1] == 105 && line[2] == 114);
    assert(line[3] == 61);
    lemma_split_eq_at(line, 3);
    assert(line.subrange(0, 3) =~= dir_key());
    assert(line.skip(4) =~= v);
    assert(spec_trim(dir_key()) == dir_key());
}

/// Round trip of the help peek: the first `dir=` line of the content the
/// packer builds is exactly the directory name that was put in, and absent
/// when none was — in particular a single-file pack, which writes no `dir=`
/// line, yields no suggestion.
pub proof fn lemma_first_dir_round_trip(e: Option<Seq<u8>>, d: Option<Seq<u8>>)
    requires
        e matches Some(v) ==> (forall|j: int| 0 <= j < v.len() ==> v[j] != 10) && spec_trim(v)
            == v,
        d matches Some(v) ==> (forall|j: int| 0 <= j < v.len() ==> v[j] != 10) && spec_trim(v)
            == v,
    ensures
        spec_first_dir(spec_config_bytes(e, d)) == d,
{
    let s = spec_config_bytes(e, d);
    let d_part = match d {
        Some(v) => dir_key() + seq![61u8] + v + seq![10u8],
        None => Seq::<u8>::empty(),
    };
    match e {
        Some(ve) => {
            let line_e = exec_key() + seq![61u8] + ve;
            assert forall|j: int| 0 <= j < line_e.len() implies line_e[j] != 10 by {
                if j == 0 {
                    assert(line_e[0] == 101);
                } else if j == 1 {
                    assert(line_e[1] == 120);
                } else if j == 2 {
                    assert(line_e[2] == 101);
                } else if j == 3 {
                    assert(line_e[3] == 99);
                } else if j == 4 {
                    assert(line_e[4] == 61);
                } else {
                    assert(line_e[j] == ve[j - 5]);
                }
            }
            assert(s =~= line_e + seq![10u8] + d_part);
            lemma_fd_fold_line(line_e, d_part, Seq::empty(), None);
            assert(Seq::<u8>::empty() + line_e =~= line_e);
            lemma_fd_exec_line(None, ve);
            lemma_fd_after_exec(d);
        },
        None => {
            assert(s =~= d_part);
            lemma_fd_after_exec(d);
        },
    }
}

/// Folding the first-match search over just the optional `dir=` line finds
/// exactly that value.
proof fn lemma_fd_after_exec(d: Option<Seq<u8>>)
    requires
        d matches Some(v) ==> (forall|j: int| 0 <= j < v.len() ==> v[j] != 10) && spec_trim(v)
            == v,
    ensures
        fd_fold(
            match d {
                Some(v) => dir_key() + seq![61u8] + v + seq![10u8],
                None => Seq::<u8>::empty(),
            },
            Seq::empty(),
            None,
        ) == d,
{
    match d {
        Some(vd) => {
            let line_d = dir_key() + seq![61u8] + vd;
            let d_part = dir_key() + seq![61u8] + vd + seq![10u8];
            assert forall|j: int| 0 <= j < line_d.len() implies line_d[j] != 10 by {
                if j == 0 {
                    assert(line_d[0] == 100);
                } else if j == 1 {
                    assert(line_d[1] == 105);
                } else if j == 2 {
                    assert(line_d[2] == 114);
                } else if j == 3 {
                    assert(line_d[3] == 61);
                } else {
                    assert(line_d[j] == vd[j - 4]);
                }
            }
            assert(d_part =~= line_d + seq![10u8] + Seq::<u8>::empty());
            lemma_fd_fold_line(line_d, Seq::empty(), Seq::empty(), None);
            assert(Seq::<u8>::empty() + line_d =~= line_d);
            lemma_fd_dir_line(vd);
        },
        None => {},
    }
}

/// Build the config-entry content from the chosen directives, executable form.
pub fn build_config(exec_cmd: &Option<Vec<u8>>, dir_name: &Option<Vec<u8>>) -> (r: Vec<u8>)
    ensures
        r@ == spec_config_bytes(
            match exec_cmd {
                Some(v) => Some(v@),
                None => None,
            },
            match dir_name {
                Some(v) => Some(v@),
                None => None,
            },
        ),
{
    let mut r: Vec<u8> = Vec::new();
    match exec_cmd {
        Some(v) => {
            r.push(101u8);
            r.push(120u8);
            r.push(101u8);
            r.push(99u8);
            r.push(61u8);
            r.extend_from_slice(v.as_slice());
            r.push(10u8);
        },
        None => {},
    }
    match dir_name {
        Some(v) => {
            r.push(100u8);
            r.push(105u8);
            r.push(114u8);
            r.push(61u8);
            r.extend_from_slice(v.as_slice());
            r.push(10u8);
        },
        None => {},
    }
    proof {
        assert(r@ =~= spec_config_bytes(
            match exec_cmd {
                Some(v) => Some(v@),
                None => None,
            },
            match dir_name {
                Some(v) => Some(v@),
                None => None,
            },
        ));
    }
    r
}

} // verus!
