use vstd::prelude::*;
use crate::bytes_util::subvec;
use crate::config::CfgView;
use crate::config::spec_parse_config;

verus! {

/// The reserved name of the config entry, ASCII `"__sfx_config"`. A payload
/// entry under this name carries directives, never user content, and is kept
/// out of every listing and extraction.
pub open spec fn config_name() -> Seq<u8> {
    seq![95u8, 95u8, 115u8, 102u8, 120u8, 95u8, 99u8, 111u8, 110u8, 102u8, 105u8, 103u8]
}

/// The reserved config-entry name as a vector.
pub fn config_name_vec() -> (r: Vec<u8>)
    ensures
        r@ == config_name(),
{
    let mut v: Vec<u8> = Vec::new();
    v.push(95u8);
    v.push(95u8);
    v.push(115u8);
    v.push(102u8);
    v.push(120u8);
    v.push(95u8);
    v.push(99u8);
    v.push(111u8);
    v.push(110u8);
    v.push(102u8);
    v.push(105u8);
    v.push(103u8);
    proof {
        assert(v@ =~= config_name());
    }
    v
}

/// One archive entry at the specification level.
#[verifier::ext_equal]
pub ghost struct EntryView {
    pub path: Seq<u8>,
    pub is_dir: bool,
    pub data: Seq<u8>,
}

/// One archive entry: a directory marker or a file with content, under a
/// relative posix-style path given as its UTF-8 bytes.
pub struct Entry {
    pub path: Vec<u8>,
    pub is_dir: bool,
    pub data: Vec<u8>,
}

impl View for Entry {
    type V = EntryView;

    open spec fn view(&self) -> EntryView {
        EntryView { path: self.path@, is_dir: self.is_dir, data: self.data@ }
    }
}

/// The views of a sequence of entries.
pub open spec fn views_of(s: Seq<Entry>) -> Seq<EntryView> {
    s.map_values(|e: Entry| e@)
}

/// Whether an entry is the reserved config entry.
pub open spec fn is_config_entry(e: EntryView) -> bool {
    e.path == config_name()
}

/// The entries that carry user content: all but the reserved config entries,
/// in their original order.
pub open spec fn real_entries(s: Seq<EntryView>) -> Seq<EntryView>
    decreases s.len(),
{
    if s.len() == 0 {
        Seq::empty()
    } else {
        let r = real_entries(s.drop_last());
        if is_config_entry(s.last()) {
            r
        } else {
            r.push(s.last())
        }
    }
}

/// The entries an extraction run writes: the user-content entries whose
/// paths are confined, in their original order. An entry whose path could
/// escape the target tree is skipped, never written.
pub open spec fn extractable_entries(s: Seq<EntryView>) -> Seq<EntryView>
    decreases s.len(),
{
    if s.len() == 0 {
        Seq::empty()
    } else {
        let r = extractable_entries(s.drop_last());
        if is_config_entry(s.last()) || !crate::paths::confined_path(s.last().path) {
            r
        } else {
            r.push(s.last())
        }
    }
}

/// Whether every config entry's content is well-formed UTF-8 text.
pub open spec fn all_config_utf8(s: Seq<EntryView>) -> bool {
    forall|i: int|
        0 <= i < s.len() && is_config_entry(#[trigger] s[i]) ==> crate::paths::valid_utf8(
            s[i].data,
        )
}

/// The relative paths of the entries that carry user content, in order.
pub open spec fn real_paths(s: Seq<EntryView>) -> Seq<Seq<u8>> {
    real_entries(s).map_values(|e: EntryView| e.path)
}

/// Later directives override earlier ones; absent ones leave them alone.
pub open spec fn spec_merge(c: CfgView, p: CfgView) -> CfgView {
    CfgView {
        exec_cmd: if p.exec_cmd is Some {
            p.exec_cmd
        } else {
            c.exec_cmd
        },
        dir_name: if p.dir_name is Some {
            p.dir_name
        } else {
            c.dir_name
        },
    }
}

/// The directives collected from every config entry of `s`, in stream order,
/// later entries overriding earlier ones.
pub open spec fn cfg_of_entries(s: Seq<EntryView>) -> CfgView
    decreases s.len(),
{
    if s.len() == 0 {
        CfgView { exec_cmd: None, dir_name: None }
    } else {
        let c = cfg_of_entries(s.drop_last());
        if is_config_entry(s.last()) {
            spec_merge(c, spec_parse_config(s.last().data))
        } else {
            c
        }
    }
}

/// The position of the first entry that carries user content, or the length
/// of the sequence when every entry is a config entry.
pub open spec fn first_real_index(s: Seq<EntryView>) -> int
    decreases s.len(),
{
    if s.len() == 0 {
        0
    } else if !is_config_entry(s[0]) {
        0
    } else {
        1 + first_real_index(s.skip(1))
    }
}

/// What `first_real_index` picks: the first non-config position.
pub proof fn lemma_first_real_index(s: Seq<EntryView>)
    ensures
        0 <= first_real_index(s) <= s.len(),
        forall|j: int| 0 <= j < first_real_index(s) ==> is_config_entry(s[j]),
        first_real_index(s) < s.len() ==> !is_config_entry(s[first_real_index(s)]),
    decreases s.len(),
{
    if s.len() > 0 && is_config_entry(s[0]) {
        lemma_first_real_index(s.skip(1));
        assert forall|j: int| 0 <= j < first_real_index(s) implies is_config_entry(s[j]) by {
            if j > 0 {
                assert(s[j] == s.skip(1)[j - 1]);
            }
        }
    }
}

/// A fresh entry with the same path, kind and content.
pub fn clone_entry(e: &Entry) -> (r: Entry)
    ensures
        r@ == e@,
{
    let r = Entry {
        path: subvec(&e.path, 0, e.path.len()),
        is_dir: e.is_dir,
        data: subvec(&e.data, 0, e.data.len()),
    };
    proof {
        assert(r.path@ =~= e.path@);
        assert(r.data@ =~= e.data@);
    }
    r
}

} // verus!
