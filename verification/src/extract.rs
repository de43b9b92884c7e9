use vstd::prelude::*;
use crate::bytes_util::bytes_eq;
use crate::bytes_util::subvec;
use crate::codec::tar_parse;
use crate::codec::untar_of;
use crate::codec::unzstd_of;
use crate::codec::zstd_decompress;
use crate::config::ConfigValues;
use crate::config::empty_cfg;
use crate::config::parse_config;
use crate::config::spec_parse_config;
use crate::config::parse_config_first_dir;
use crate::config::spec_first_dir;
use crate::entries::all_config_utf8;
use crate::entries::cfg_of_entries;
use crate::entries::clone_entry;
use crate::entries::extractable_entries;
use crate::entries::config_name;
use crate::entries::config_name_vec;
use crate::entries::Entry;
use crate::entries::EntryView;
use crate::entries::first_real_index;
use crate::entries::is_config_entry;
use crate::entries::lemma_first_real_index;
use crate::entries::real_entries;
use crate::entries::real_paths;
use crate::entries::spec_merge;
use crate::entries::views_of;
use crate::errors::SfxError;
use crate::pack::view_opt;
use crate::paths::confined_path;
use crate::paths::is_confined_path;
use crate::paths::is_valid_utf8;
use crate::paths::valid_utf8;

verus! {

/// What unpacking a payload region yields: the entry list encoded by the
/// decompressed archive stream, or nothing when either stage fails to decode.
pub open spec fn spec_unpack_payload(p: Seq<u8>) -> Option<Seq<EntryView>> {
    match unzstd_of(p) {
        Some(t) => untar_of(t),
        None => None,
    }
}

/// Decompress a payload region and read every archive entry out of it, in
/// stream order. Succeeds exactly on payloads whose two decoding stages both
/// succeed; anything else is a corrupt archive.
pub fn extract_entries(payload: &Vec<u8>) -> (r: Result<Vec<Entry>, SfxError>)
    ensures
        r matches Ok(v) ==> spec_unpack_payload(payload@) == Some(views_of(v@)),
        r matches Err(e) ==> e == SfxError::CorruptArchive && spec_unpack_payload(payload@)
            is None,
{
    let t = match zstd_decompress(payload) {
        Ok(t) => t,
        Err(e) => {
            return Err(e);
        },
    };
    tar_parse(&t)
}

/// What probing a whole container yields: no payload when the file is short
/// or unmarked, otherwise the location the footer records.
pub open spec fn spec_probe(c: Seq<u8>) -> Result<
    Option<crate::footer::PayloadInfo>,
    SfxError,
> {
    if c.len() < 17 {
        Ok(None)
    } else {
        crate::footer::spec_find_payload(
            c.len() as u64,
            c.subrange(c.len() - 17, c.len() as int),
        )
    }
}

/// What reading a whole container yields: no payload, the decoded entry
/// list, or a corrupt-archive failure.
pub open spec fn spec_read_container(c: Seq<u8>) -> Result<Option<Seq<EntryView>>, SfxError> {
    match spec_probe(c) {
        Ok(None) => Ok(None),
        Ok(Some(info)) => match spec_unpack_payload(
            c.subrange(info.start as int, info.start + info.size),
        ) {
            Some(es) => Ok(Some(es)),
            None => Err(SfxError::CorruptArchive),
        },
        Err(e) => Err(e),
    }
}

/// Probe a whole container held in memory and decode its payload: `Ok(None)`
/// for a bare stub, the entry list for a sound container, an error for a
/// footer or stream that does not hold together.
pub fn read_container(container: &Vec<u8>) -> (r: Result<Option<Vec<Entry>>, SfxError>)
    requires
        container@.len() <= u64::MAX,
    ensures
        r matches Err(e) ==> spec_read_container(container@) == Err::<
            Option<Seq<EntryView>>,
            _,
        >(e),
        r matches Ok(v) ==> (v is None && spec_read_container(container@) == Ok::<
            _,
            SfxError,
        >(None::<Seq<EntryView>>) || (v matches Some(es) && spec_read_container(container@)
            == Ok::<_, SfxError>(Some(views_of(es@))))),
{
    let fl = container.len();
    if fl < 17 {
        return Ok(None);
    }
    let tail = subvec(container, fl - 17, fl);
    let info = match crate::footer::find_payload(fl as u64, &tail) {
        Err(e) => {
            return Err(e);
        },
        Ok(None) => {
            return Ok(None);
        },
        Ok(Some(info)) => info,
    };
    proof {
        assert(info.start + info.size <= fl);
    }
    let start = info.start as usize;
    let size = info.size as usize;
    let payload = subvec(container, start, start + size);
    match extract_entries(&payload) {
        Ok(v) => Ok(Some(v)),
        Err(e) => Err(e),
    }
}

/// Everything an extraction run needs after the payload is decoded: the
/// resolved target directory, the user-content entries to write in order, and
/// the post-extraction command, if any.
pub struct ExtractPlan {
    pub target_dir: Vec<u8>,
    pub files: Vec<Entry>,
    pub exec_cmd: Option<Vec<u8>>,
}

/// The resolved target directory: an explicit user directory wins; otherwise
/// the `dir` directive collected from the config entries seen before the
/// first user-content entry; otherwise the current directory.
pub open spec fn spec_resolved_target(s: Seq<EntryView>, user: Option<Seq<u8>>) -> Seq<u8> {
    match user {
        Some(u) => u,
        None => match cfg_of_entries(s.take(first_real_index(s))).dir_name {
            Some(d) => d,
            None => seq![46u8],
        },
    }
}

/// A fresh copy of an optional byte vector.
fn clone_opt_bytes(o: &Option<Vec<u8>>) -> (r: Option<Vec<u8>>)
    ensures
        view_opt(r) == view_opt(*o),
{
    match o {
        Some(v) => Some(subvec(v, 0, v.len())),
        None => None,
    }
}

/// Later directives override earlier ones, executable form.
fn merge_into(acc: &mut ConfigValues, p: ConfigValues)
    ensures
        final(acc)@ == spec_merge(old(acc)@, p@),
{
    if let Some(v) = p.exec_cmd {
        acc.exec_cmd = Some(v);
    }
    if let Some(v) = p.dir_name {
        acc.dir_name = Some(v);
    }
}

/// The views of a pushed sequence are the pushed views.
proof fn lemma_views_push(s: Seq<Entry>, e: Entry)
    ensures
        views_of(s.push(e)) == views_of(s).push(e@),
{
    assert(views_of(s.push(e)) =~~= views_of(s).push(e@));
}

/// Turn a decoded entry list into an extraction plan.
///
/// The plan's files are the non-config entries in stream order, minus any
/// whose path could escape the target tree (relative, no `..` component) —
/// those are skipped, never written. The command is the last `exec`
/// directive of any config entry; the target directory follows the
/// resolution priority, the `dir` directive counting only up to the point
/// where the first user-content entry forces the resolution (the whole
/// stream when there is none). A config entry whose content is not
/// well-formed UTF-8 text makes the whole archive corrupt.
pub fn plan_extraction(entries: &Vec<Entry>, user_dir: &Option<Vec<u8>>) -> (r: Result<
    ExtractPlan,
    SfxError,
>)
    ensures
        r matches Err(e) ==> e == SfxError::CorruptArchive,
        r is Ok <==> all_config_utf8(views_of(entries@)),
        r matches Ok(plan) ==> views_of(plan.files@) == extractable_entries(views_of(entries@))
            && (forall|j: int|
            0 <= j < plan.files@.len() ==> confined_path(
                #[trigger] plan.files@[j]@.path,
            )) && view_opt(plan.exec_cmd) == cfg_of_entries(views_of(entries@)).exec_cmd
            && plan.target_dir@ == spec_resolved_target(views_of(entries@), view_opt(*user_dir)),
{
    let ghost s = views_of(entries@);
    let ghost k = first_real_index(s);
    proof {
        lemma_first_real_index(s);
    }
    let cfg_name = config_name_vec();
    let mut files: Vec<Entry> = Vec::new();
    let mut acc = ConfigValues { exec_cmd: None, dir_name: None };
    let mut resolved_dir: Option<Vec<u8>> = None;
    let mut seen_real = false;
    let n = entries.len();
    let mut i: usize = 0;
    proof {
        assert(s.take(0) =~= Seq::<EntryView>::empty());
        assert(views_of(files@) =~= extractable_entries(s.take(0)));
        assert(acc@ == cfg_of_entries(s.take(0)));
    }
    while i < n
        invariant
            n == entries@.len(),
            s == views_of(entries@),
            cfg_name@ == config_name(),
            k == first_real_index(s),
            0 <= k <= n,
            forall|j: int| 0 <= j < k ==> is_config_entry(s[j]),
            k < n ==> !is_config_entry(s[k as int]),
            i <= n,
            views_of(files@) == extractable_entries(s.take(i as int)),
            forall|j: int|
                0 <= j < files@.len() ==> confined_path(#[trigger] files@[j]@.path),
            forall|j: int|
                0 <= j < i && is_config_entry(#[trigger] s[j]) ==> valid_utf8(s[j].data),
            acc@ == cfg_of_entries(s.take(i as int)),
            seen_real == (i > k),
            seen_real ==> view_opt(resolved_dir) == cfg_of_entries(s.take(k as int)).dir_name,
        decreases n - i,
    {
        let ghost pre_files = files@;
        let e = &entries[i];
        proof {
            assert(s.take(i + 1 as int).drop_last() =~= s.take(i as int));
            assert(s.take(i + 1 as int).last() == s[i as int]);
            assert(e@ == s[i as int]);
        }
        if bytes_eq(&e.path, &cfg_name) {
            assert(is_config_entry(s[i as int]));
            if !is_valid_utf8(&e.data) {
                proof {
                    assert(is_config_entry(s[i as int]) && !valid_utf8(s[i as int].data));
                    assert(!all_config_utf8(s));
                }
                return Err(SfxError::CorruptArchive);
            }
            let p = parse_config(&e.data);
            merge_into(&mut acc, p);
            proof {
                if i == k {
                    assert(is_config_entry(s[k as int]));
                    assert(false);
                }
            }
        } else {
            assert(!is_config_entry(s[i as int]));
            if !seen_real {
                proof {
                    assert(i <= k);
                    if i < k {
                        assert(is_config_entry(s[i as int]));
                        assert(false);
                    }
                }
                seen_real = true;
                resolved_dir = clone_opt_bytes(&acc.dir_name);
            }
            if is_confined_path(&e.path) {
                let c = clone_entry(e);
                files.push(c);
                proof {
                    lemma_views_push(pre_files, c);
                }
            }
        }
        i += 1;
    }
    proof {
        assert(s.take(n as int) =~= s);
        if !seen_real {
            assert(k == n);
        }
    }
    let dir_choice: Option<Vec<u8>> = if seen_real {
        resolved_dir
    } else {
        clone_opt_bytes(&acc.dir_name)
    };
    let target_dir: Vec<u8> = match user_dir {
        Some(u) => subvec(u, 0, u.len()),
        None => match dir_choice {
            Some(d) => d,
            None => {
                let mut v: Vec<u8> = Vec::new();
                v.push(46u8);
                proof {
                    assert(v@ =~= seq![46u8]);
                }
                v
            },
        },
    };
    Ok(ExtractPlan { target_dir, files, exec_cmd: acc.exec_cmd })
}

/// The relative paths that list mode prints: every entry's path except the
/// reserved config name, in stream order. Listing is a pure computation: it
/// touches no filesystem state.
pub fn list_paths(entries: &Vec<Entry>) -> (r: Vec<Vec<u8>>)
    ensures
        r@.map_values(|p: Vec<u8>| p@) == real_paths(views_of(entries@)),
{
    let ghost s = views_of(entries@);
    let cfg_name = config_name_vec();
    let mut r: Vec<Vec<u8>> = Vec::new();
    let n = entries.len();
    let mut i: usize = 0;
    proof {
        assert(s.take(0) =~= Seq::<EntryView>::empty());
        assert(r@.map_values(|p: Vec<u8>| p@) =~= real_paths(s.take(0)));
    }
    while i < n
        invariant
            n == entries@.len(),
            s == views_of(entries@),
            cfg_name@ == config_name(),
            i <= n,
            r@.map_values(|p: Vec<u8>| p@) == real_paths(s.take(i as int)),
        decreases n - i,
    {
        let ghost pre = r@;
        let e = &entries[i];
        proof {
            assert(s.take(i + 1 as int).drop_last() =~= s.take(i as int));
            assert(s.take(i + 1 as int).last() == s[i as int]);
            assert(e@ == s[i as int]);
        }
        if !bytes_eq(&e.path, &cfg_name) {
            let pv = subvec(&e.path, 0, e.path.len());
            let ghost pvv = pv@;
            r.push(pv);
            proof {
                assert(real_entries(s.take(i + 1 as int)) == real_entries(s.take(i as int)).push(
                    s[i as int],
                ));
                assert(r@ == pre.push(r@.last()));
                assert(r@.last()@ == pvv);
                assert(pvv == s[i as int].path);
                assert(r@.map_values(|p: Vec<u8>| p@) =~~= pre.map_values(|p: Vec<u8>| p@).push(
                    pvv,
                ));
                assert(real_paths(s.take(i + 1 as int)) =~~= real_paths(s.take(i as int)).push(
                    s[i as int].path,
                ));
            }
        } else {
            proof {
                assert(real_entries(s.take(i + 1 as int)) == real_entries(s.take(i as int)));
            }
        }
        i += 1;
    }
    proof {
        assert(s.take(n as int) =~= s);
    }
    r
}

/// The directory name the help text shows: the first `dir=` line of the
/// config entry, looked for only at the head of the stream, where the packer
/// puts it. A config entry whose content is not well-formed UTF-8 text, like
/// a missing or misplaced one, yields no suggestion.
pub fn default_dir_of(entries: &Vec<Entry>) -> (r: Option<Vec<u8>>)
    ensures
        view_opt(r) == {
            let s = views_of(entries@);
            if s.len() > 0 && is_config_entry(s[0]) && valid_utf8(s[0].data) {
                spec_first_dir(s[0].data)
            } else {
                None
            }
        },
{
    if entries.len() == 0 {
        return None;
    }
    let cfg_name = config_name_vec();
    let e = &entries[0];
    proof {
        assert(e@ == views_of(entries@)[0]);
    }
    if bytes_eq(&e.path, &cfg_name) && is_valid_utf8(&e.data) {
        parse_config_first_dir(&e.data)
    } else {
        None
    }
}

/// Every entry of an all-user-content list survives filtering, in order.
pub proof fn lemma_real_entries_all_real(s: Seq<EntryView>)
    requires
        forall|j: int| 0 <= j < s.len() ==> !is_config_entry(#[trigger] s[j]),
    ensures
        real_entries(s) == s,
    decreases s.len(),
{
    if s.len() > 0 {
        lemma_real_entries_all_real(s.drop_last());
        assert(real_entries(s.drop_last()).push(s.last()) =~= s);
    }
}

/// A leading config entry contributes nothing to the filtered entries.
pub proof fn lemma_real_entries_config_prefix(c: EntryView, s: Seq<EntryView>)
    requires
        is_config_entry(c),
    ensures
        real_entries(seq![c] + s) == real_entries(s),
    decreases s.len(),
{
    if s.len() == 0 {
        assert(seq![c] + s =~= seq![c]);
        assert(seq![c].drop_last() =~= Seq::<EntryView>::empty());
        assert(real_entries(Seq::<EntryView>::empty()) =~= Seq::<EntryView>::empty());
        assert(real_entries(seq![c] + s) =~= Seq::<EntryView>::empty());
    } else {
        lemma_real_entries_config_prefix(c, s.drop_last());
        assert((seq![c] + s).drop_last() =~= seq![c] + s.drop_last());
        assert((seq![c] + s).last() == s.last());
    }
}

/// Directory default: a payload packed from a directory input, with no
/// explicit target directory at extraction time, resolves its target to the
/// directory's own name.
pub proof fn lemma_directory_default(
    items: Seq<EntryView>,
    exec_cmd: Option<Seq<u8>>,
    dir_name: Seq<u8>,
)
    requires
        forall|j: int| 0 <= j < items.len() ==> !is_config_entry(#[trigger] items[j]),
        exec_cmd matches Some(v) ==> (forall|j: int| 0 <= j < v.len() ==> v[j] != 10)
            && crate::config::spec_trim(v) == v,
        forall|j: int| 0 <= j < dir_name.len() ==> dir_name[j] != 10,
        crate::config::spec_trim(dir_name) == dir_name,
    ensures
        spec_resolved_target(
            crate::pack::spec_full_entries(items, exec_cmd, Some(dir_name)),
            None,
        ) == dir_name,
{
    let cfg = crate::config::spec_config_bytes(exec_cmd, Some(dir_name));
    assert(cfg.len() > 0);
    let c = EntryView { path: config_name(), is_dir: false, data: cfg };
    let full = seq![c] + items;
    assert(crate::pack::spec_full_entries(items, exec_cmd, Some(dir_name)) == full);
    assert(is_config_entry(full[0]));
    assert(full.skip(1) =~= items);
    if items.len() > 0 {
        assert(!is_config_entry(items[0]));
        assert(first_real_index(items) == 0);
    } else {
        assert(first_real_index(items) == 0);
    }
    assert(first_real_index(full) == 1);
    assert(full.take(1) =~= seq![c]);
    assert(seq![c].drop_last() =~= Seq::<EntryView>::empty());
    assert(cfg_of_entries(Seq::<EntryView>::empty()) == empty_cfg());
    crate::config::lemma_config_round_trip(exec_cmd, Some(dir_name));
    assert(cfg_of_entries(seq![c]) == spec_merge(empty_cfg(), spec_parse_config(cfg)));
    assert(cfg_of_entries(full.take(first_real_index(full))).dir_name == Some(dir_name));
}

/// A payload packed without a directory name (a single-file input) never
/// carries a `dir` directive: with no explicit target directory, extraction
/// resolves to the current directory.
pub proof fn lemma_file_default(items: Seq<EntryView>, exec_cmd: Option<Seq<u8>>)
    requires
        forall|j: int| 0 <= j < items.len() ==> !is_config_entry(#[trigger] items[j]),
        exec_cmd matches Some(v) ==> (forall|j: int| 0 <= j < v.len() ==> v[j] != 10)
            && crate::config::spec_trim(v) == v,
    ensures
        spec_resolved_target(crate::pack::spec_full_entries(items, exec_cmd, None), None) == seq![
            46u8,
        ],
{
    let cfg = crate::config::spec_config_bytes(exec_cmd, None);
    crate::config::lemma_config_round_trip(exec_cmd, None);
    if cfg.len() > 0 {
        let c = EntryView { path: config_name(), is_dir: false, data: cfg };
        let full = seq![c] + items;
        assert(crate::pack::spec_full_entries(items, exec_cmd, None) == full);
        assert(is_config_entry(full[0]));
        assert(full.skip(1) =~= items);
        if items.len() > 0 {
            assert(!is_config_entry(items[0]));
        }
        assert(first_real_index(items) == 0);
        assert(first_real_index(full) == 1);
        assert(full.take(1) =~= seq![c]);
        assert(seq![c].drop_last() =~= Seq::<EntryView>::empty());
        assert(cfg_of_entries(seq![c]) == spec_merge(empty_cfg(), spec_parse_config(cfg)));
        assert(cfg_of_entries(full.take(first_real_index(full))).dir_name is None);
    } else {
        let full = items;
        assert(crate::pack::spec_full_entries(items, exec_cmd, None) == full);
        if items.len() > 0 {
            assert(!is_config_entry(items[0]));
        }
        assert(first_real_index(full) == 0);
        assert(full.take(0) =~= Seq::<EntryView>::empty());
        assert(cfg_of_entries(Seq::<EntryView>::empty()).dir_name is None);
    }
}

/// Every entry of an all-confined, all-user-content list is written, in order.
pub proof fn lemma_extractable_all(s: Seq<EntryView>)
    requires
        forall|j: int|
            0 <= j < s.len() ==> !is_config_entry(#[trigger] s[j]) && confined_path(s[j].path),
    ensures
        extractable_entries(s) == s,
    decreases s.len(),
{
    if s.len() > 0 {
        lemma_extractable_all(s.drop_last());
        assert(extractable_entries(s.drop_last()).push(s.last()) =~= s);
    }
}

/// A leading config entry contributes nothing to the written entries.
pub proof fn lemma_extractable_config_prefix(c: EntryView, s: Seq<EntryView>)
    requires
        is_config_entry(c),
    ensures
        extractable_entries(seq![c] + s) == extractable_entries(s),
    decreases s.len(),
{
    if s.len() == 0 {
        assert(seq![c] + s =~= seq![c]);
        assert(seq![c].drop_last() =~= Seq::<EntryView>::empty());
        assert(extractable_entries(Seq::<EntryView>::empty()) =~= Seq::<EntryView>::empty());
        assert(extractable_entries(seq![c] + s) =~= Seq::<EntryView>::empty());
    } else {
        lemma_extractable_config_prefix(c, s.drop_last());
        assert((seq![c] + s).drop_last() =~= seq![c] + s.drop_last());
        assert((seq![c] + s).last() == s.last());
    }
}

/// Round trip of extraction: the entries a plan writes from a packed payload
/// are exactly the items that were packed, in order and byte for byte, as
/// long as no item usurps the reserved config name and every item's path is
/// confined (which every packable path is).
pub proof fn lemma_round_trip_extracted(
    items: Seq<EntryView>,
    exec_cmd: Option<Seq<u8>>,
    dir_name: Option<Seq<u8>>,
)
    requires
        forall|j: int|
            0 <= j < items.len() ==> !is_config_entry(#[trigger] items[j]) && confined_path(
                items[j].path,
            ),
    ensures
        extractable_entries(crate::pack::spec_full_entries(items, exec_cmd, dir_name)) == items,
{
    let cfg = crate::config::spec_config_bytes(exec_cmd, dir_name);
    if cfg.len() > 0 {
        let c = EntryView { path: config_name(), is_dir: false, data: cfg };
        lemma_extractable_config_prefix(c, items);
    }
    lemma_extractable_all(items);
}

/// Round trip of the listing: the user-content entries of a packed payload
/// are exactly the items that were packed, in order and byte for byte, as
/// long as no item usurps the reserved config name.
pub proof fn lemma_round_trip_entries(
    items: Seq<EntryView>,
    exec_cmd: Option<Seq<u8>>,
    dir_name: Option<Seq<u8>>,
)
    requires
        forall|j: int| 0 <= j < items.len() ==> !is_config_entry(#[trigger] items[j]),
    ensures
        real_entries(crate::pack::spec_full_entries(items, exec_cmd, dir_name)) == items,
{
    let cfg = crate::config::spec_config_bytes(exec_cmd, dir_name);
    if cfg.len() > 0 {
        let c = EntryView { path: config_name(), is_dir: false, data: cfg };
        lemma_real_entries_config_prefix(c, items);
    }
    lemma_real_entries_all_real(items);
}

} // verus!
