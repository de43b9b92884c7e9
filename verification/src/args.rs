use vstd::prelude::*;
use crate::bytes_util::bytes_eq;
use crate::pack::view_opt;

verus! {

/// The short and long spellings of each option, as their ASCII bytes.
pub open spec fn opt_o() -> Seq<u8> {
    seq![45u8, 111u8]
}

pub open spec fn opt_output() -> Seq<u8> {
    seq![45u8, 45u8, 111u8, 117u8, 116u8, 112u8, 117u8, 116u8]
}

pub open spec fn opt_l() -> Seq<u8> {
    seq![45u8, 108u8]
}

pub open spec fn opt_list() -> Seq<u8> {
    seq![45u8, 45u8, 108u8, 105u8, 115u8, 116u8]
}

pub open spec fn opt_h() -> Seq<u8> {
    seq![45u8, 104u8]
}

pub open spec fn opt_help() -> Seq<u8> {
    seq![45u8, 45u8, 104u8, 101u8, 108u8, 112u8]
}

pub open spec fn opt_v() -> Seq<u8> {
    seq![45u8, 118u8]
}

pub open spec fn opt_verbose() -> Seq<u8> {
    seq![45u8, 45u8, 118u8, 101u8, 114u8, 98u8, 111u8, 115u8, 101u8]
}

/// What an extractor invocation asked for, at the specification level.
#[verifier::ext_equal]
pub ghost struct CliView {
    pub target_dir: Option<Seq<u8>>,
    pub list_only: bool,
    pub show_help: bool,
    pub verbose: bool,
}

/// What an extractor invocation asked for: an optional explicit target
/// directory, list mode, help mode, and verbosity.
pub struct CliConfig {
    pub target_dir: Option<Vec<u8>>,
    pub list_only: bool,
    pub show_help: bool,
    pub verbose: bool,
}

impl View for CliConfig {
    type V = CliView;

    open spec fn view(&self) -> CliView {
        CliView {
            target_dir: view_opt(self.target_dir),
            list_only: self.list_only,
            show_help: self.show_help,
            verbose: self.verbose,
        }
    }
}

/// No options at all.
pub open spec fn default_cli() -> CliView {
    CliView { target_dir: None, list_only: false, show_help: false, verbose: false }
}

/// The option parser folded over the remaining arguments: an output option
/// takes the following argument as the target directory when there is one,
/// each flag sets its field, and anything else is ignored.
pub open spec fn parse_args_from(args: Seq<Seq<u8>>, acc: CliView) -> CliView
    decreases args.len(),
{
    if args.len() == 0 {
        acc
    } else if args[0] == opt_o() || args[0] == opt_output() {
        if args.len() >= 2 {
            parse_args_from(
                args.skip(2),
                CliView { target_dir: Some(args[1]), ..acc },
            )
        } else {
            parse_args_from(args.skip(1), acc)
        }
    } else if args[0] == opt_l() || args[0] == opt_list() {
        parse_args_from(args.skip(1), CliView { list_only: true, ..acc })
    } else if args[0] == opt_h() || args[0] == opt_help() {
        parse_args_from(args.skip(1), CliView { show_help: true, ..acc })
    } else if args[0] == opt_v() || args[0] == opt_verbose() {
        parse_args_from(args.skip(1), CliView { verbose: true, ..acc })
    } else {
        parse_args_from(args.skip(1), acc)
    }
}

/// What a whole argument vector asks for: the leading program name is
/// ignored, the rest is folded over the option parser.
pub open spec fn spec_parse_args(args: Seq<Seq<u8>>) -> CliView {
    if args.len() == 0 {
        default_cli()
    } else {
        parse_args_from(args.skip(1), default_cli())
    }
}

/// The views of an argument vector.
pub open spec fn arg_views(args: Seq<Vec<u8>>) -> Seq<Seq<u8>> {
    args.map_values(|a: Vec<u8>| a@)
}

fn matches_output(a: &Vec<u8>) -> (r: bool)
    ensures
        r == (a@ == opt_o() || a@ == opt_output()),
{
    let mut s: Vec<u8> = Vec::new();
    s.push(45u8);
    s.push(111u8);
    proof {
        assert(s@ =~= opt_o());
    }
    if bytes_eq(a, &s) {
        return true;
    }
    let mut l: Vec<u8> = Vec::new();
    l.push(45u8);
    l.push(45u8);
    l.push(111u8);
    l.push(117u8);
    l.push(116u8);
    l.push(112u8);
    l.push(117u8);
    l.push(116u8);
    proof {
        assert(l@ =~= opt_output());
    }
    bytes_eq(a, &l)
}

fn matches_list(a: &Vec<u8>) -> (r: bool)
    ensures
        r == (a@ == opt_l() || a@ == opt_list()),
{
    let mut s: Vec<u8> = Vec::new();
    s.push(45u8);
    s.push(108u8);
    proof {
        assert(s@ =~= opt_l());
    }
    if bytes_eq(a, &s) {
        return true;
    }
    let mut l: Vec<u8> = Vec::new();
    l.push(45u8);
    l.push(45u8);
    l.push(108u8);
    l.push(105u8);
    l.push(115u8);
    l.push(116u8);
    proof {
        assert(l@ =~= opt_list());
    }
    bytes_eq(a, &l)
}

fn matches_help(a: &Vec<u8>) -> (r: bool)
    ensures
        r == (a@ == opt_h() || a@ == opt_help()),
{
    let mut s: Vec<u8> = Vec::new();
    s.push(45u8);
    s.push(104u8);
    proof {
        assert(s@ =~= opt_h());
    }
    if bytes_eq(a, &s) {
        return true;
    }
    let mut l: Vec<u8> = Vec::new();
    l.push(45u8);
    l.push(45u8);
    l.push(104u8);
    l.push(101u8);
    l.push(108u8);
    l.push(112u8);
    proof {
        assert(l@ =~= opt_help());
    }
    bytes_eq(a, &l)
}

fn matches_verbose(a: &Vec<u8>) -> (r: bool)
    ensures
        r == (a@ == opt_v() || a@ == opt_verbose()),
{
    let mut s: Vec<u8> = Vec::new();
    s.push(45u8);
    s.push(118u8);
    proof {
        assert(s@ =~= opt_v());
    }
    if bytes_eq(a, &s) {
        return true;
    }
    let mut l: Vec<u8> = Vec::new();
    l.push(45u8);
    l.push(45u8);
    l.push(118u8);
    l.push(101u8);
    l.push(114u8);
    l.push(98u8);
    l.push(111u8);
    l.push(115u8);
    l.push(101u8);
    proof {
        assert(l@ =~= opt_verbose());
    }
    bytes_eq(a, &l)
}

/// Parse an extractor invocation's arguments, the first being the program
/// name, into the options it asks for.
pub fn parse_args(args: &Vec<Vec<u8>>) -> (r: CliConfig)
    ensures
        r@ == spec_parse_args(arg_views(args@)),
{
    let ghost avs = arg_views(args@);
    let mut r = CliConfig { target_dir: None, list_only: false, show_help: false, verbose: false };
    let n = args.len();
    if n == 0 {
        return r;
    }
    let mut i: usize = 1;
    proof {
        assert(r@ == default_cli());
    }
    while i < n
        invariant
            n == args@.len(),
            avs == arg_views(args@),
            n >= 1,
            1 <= i <= n,
            spec_parse_args(avs) == parse_args_from(avs.skip(i as int), r@),
        decreases n - i,
    {
        let a = &args[i];
        let ghost rest = avs.skip(i as int);
        proof {
            assert(rest[0] == avs[i as int]);
            assert(avs[i as int] == a@);
            assert(rest.skip(1) =~= avs.skip(i + 1));
        }
        if matches_output(a) {
            if i + 1 < n {
                let t = crate::bytes_util::subvec(&args[i + 1], 0, args[i + 1].len());
                proof {
                    assert(rest[1] == avs[i + 1]);
                    assert(rest.skip(2) =~= avs.skip(i + 2));
                }
                let ghost pre = r@;
                r.target_dir = Some(t);
                proof {
                    assert(t@ =~= rest[1]);
                    assert(r@ =~~= CliView { target_dir: Some(rest[1]), ..pre });
                }
                i += 2;
            } else {
                i += 1;
            }
        } else if matches_list(a) {
            r.list_only = true;
            i += 1;
        } else if matches_help(a) {
            r.show_help = true;
            i += 1;
        } else if matches_verbose(a) {
            r.verbose = true;
            i += 1;
        } else {
            i += 1;
        }
    }
    proof {
        assert(avs.skip(n as int) =~= Seq::<Seq<u8>>::empty());
    }
    r
}

} // verus!
