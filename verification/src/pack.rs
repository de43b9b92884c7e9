use vstd::prelude::*;
use crate::bytes_util::subvec;
use crate::codec::tar_build;
use crate::codec::tar_of;
use crate::codec::untar_of;
use crate::codec::unzstd_of;
use crate::codec::valid_level;
use crate::codec::zstd_compress;
use crate::codec::zstd_of;
use crate::config::build_config;
use crate::config::spec_config_bytes;
use crate::entries::config_name;
use crate::entries::config_name_vec;
use crate::entries::Entry;
use crate::entries::EntryView;
use crate::entries::views_of;
use crate::errors::SfxError;
use crate::footer::encode_footer;
use crate::footer::spec_footer;

verus! {

/// What the packer is asked to pack: one regular file, a directory tree
/// already walked into a flat entry list, or a path that turned out to be
/// missing or not a regular file or directory.
pub enum PackInput {
    FileInput { name: Vec<u8>, data: Vec<u8> },
    DirInput { name: Vec<u8>, entries: Vec<Entry> },
    Missing,
}

/// The entry list an input contributes: one entry under the file's base name,
/// or the walked entries of the directory.
pub open spec fn spec_input_items(input: PackInput) -> Seq<EntryView> {
    match input {
        PackInput::FileInput { name, data } => seq![
            EntryView { path: name@, is_dir: false, data: data@ },
        ],
        PackInput::DirInput { name, entries } => views_of(entries@),
        PackInput::Missing => Seq::empty(),
    }
}

/// The directory name an input contributes to the config entry: only a
/// directory input suggests one.
pub open spec fn spec_input_dir_name(input: PackInput) -> Option<Seq<u8>> {
    match input {
        PackInput::DirInput { name, entries } => Some(name@),
        _ => None,
    }
}

/// The option view of an optional byte vector.
pub open spec fn view_opt(o: Option<Vec<u8>>) -> Option<Seq<u8>> {
    match o {
        Some(v) => Some(v@),
        None => None,
    }
}

/// The full entry list of a payload: the config entry first when its content
/// is non-empty, then the user items in order.
pub open spec fn spec_full_entries(
    items: Seq<EntryView>,
    exec_cmd: Option<Seq<u8>>,
    dir_name: Option<Seq<u8>>,
) -> Seq<EntryView> {
    let cfg = spec_config_bytes(exec_cmd, dir_name);
    if cfg.len() > 0 {
        seq![EntryView { path: config_name(), is_dir: false, data: cfg }] + items
    } else {
        items
    }
}

/// Whether every entry of a list is fit for packing: a normal-form relative
/// path and no content on a directory marker.
pub open spec fn packable(items: Seq<EntryView>) -> bool {
    forall|i: int|
        0 <= i < items.len() ==> {
            let e = #[trigger] items[i];
            crate::paths::normal_path(e.path) && (e.is_dir ==> e.data.len() == 0)
        }
}

/// Whether every entry's path is well-formed UTF-8.
pub open spec fn all_paths_utf8(items: Seq<EntryView>) -> bool {
    forall|i: int|
        0 <= i < items.len() ==> crate::paths::valid_utf8(#[trigger] items[i].path)
}

/// Build the whole container for an already-walked input: stub bytes, then
/// the compressed archive of config entry plus items, then the footer.
///
/// The contract pins the container byte for byte, and records that
/// decompressing and reading back its payload region yields exactly the full
/// entry list that was put in.
pub fn pack_container(
    stub: &Vec<u8>,
    input: PackInput,
    level: i32,
    exec_cmd: Option<Vec<u8>>,
) -> (r: Result<Vec<u8>, SfxError>)
    requires
        packable(spec_input_items(input)),
    ensures
        r matches Err(e) ==> e != SfxError::CorruptArchive,
        (r matches Err(e) && e == SfxError::InvalidInput) <==> input is Missing,
        (r matches Err(e) && e == SfxError::InvalidOption) <==> (!(input is Missing)
            && !valid_level(level)),
        r is Ok ==> !(input is Missing) && valid_level(level),
        r matches Ok(c) ==> {
            let full = spec_full_entries(
                spec_input_items(input),
                view_opt(exec_cmd),
                spec_input_dir_name(input),
            );
            let tar_bytes = tar_of(full);
            let payload = zstd_of(tar_bytes, level as int);
            c@ == stub@ + payload + spec_footer(payload.len() as u64) && payload.len()
                <= u64::MAX && unzstd_of(payload) == Some(tar_bytes) && untar_of(tar_bytes)
                == Some(full) && crate::extract::spec_read_container(c@) == Ok::<_, SfxError>(
                Some(full),
            )
        },
        (!(input is Missing) && valid_level(level) && all_paths_utf8(spec_input_items(input))
            && stub@.len() + zstd_of(
            tar_of(
                spec_full_entries(
                    spec_input_items(input),
                    view_opt(exec_cmd),
                    spec_input_dir_name(input),
                ),
            ),
            level as int,
        ).len() + 17 <= usize::MAX) ==> r is Ok,
{
    if let PackInput::Missing = input {
        return Err(SfxError::InvalidInput);
    }
    if level < crate::codec::MIN_LEVEL || level > crate::codec::MAX_LEVEL {
        return Err(SfxError::InvalidOption);
    }
    let ghost g_items = spec_input_items(input);
    let ghost g_dir = spec_input_dir_name(input);
    let (dir_name, items): (Option<Vec<u8>>, Vec<Entry>) = match input {
        PackInput::FileInput { name, data } => {
            let mut v: Vec<Entry> = Vec::new();
            v.push(Entry { path: name, is_dir: false, data });
            (None, v)
        },
        PackInput::DirInput { name, entries } => (Some(name), entries),
        PackInput::Missing => {
            return Err(SfxError::InvalidInput);
        },
    };
    proof {
        assert(views_of(items@) =~= g_items);
        assert(view_opt(dir_name) == g_dir);
    }
    let cfg = build_config(&exec_cmd, &dir_name);
    let ghost g_cfg = cfg@;
    let mut full: Vec<Entry> = Vec::new();
    if cfg.len() > 0 {
        full.push(Entry { path: config_name_vec(), is_dir: false, data: cfg });
        proof {
            assert(full@[0]@ =~~= EntryView { path: config_name(), is_dir: false, data: g_cfg });
        }
    }
    let ghost base = full@;
    let ghost bl = base.len() as int;
    let mut i: usize = 0;
    let n = items.len();
    while i < n
        invariant
            n == items@.len(),
            i <= n,
            bl == base.len(),
            full@.len() == bl + i,
            forall|j: int| 0 <= j < bl ==> full@[j] == base[j],
            forall|j: int| bl <= j < bl + i ==> #[trigger] full@[j]@ == items@[j - bl]@,
        decreases n - i,
    {
        let e = crate::entries::clone_entry(&items[i]);
        full.push(e);
        i += 1;
    }
    proof {
        let fv = spec_full_entries(g_items, view_opt(exec_cmd), g_dir);
        assert(views_of(full@).len() == fv.len());
        assert forall|k: int| 0 <= k < fv.len() implies views_of(full@)[k] =~~= fv[k] by {
            assert(views_of(full@)[k] == full@[k]@);
            if g_cfg.len() > 0 {
                if k == 0 {
                    assert(full@[0] == base[0]);
                    assert(fv[0] == EntryView {
                        path: config_name(),
                        is_dir: false,
                        data: g_cfg,
                    });
                } else {
                    assert(full@[k]@ == items@[k - 1]@);
                    assert(fv[k] == g_items[k - 1]);
                }
            } else {
                assert(full@[k]@ == items@[k]@);
                assert(fv[k] == g_items[k]);
            }
        }
        assert(views_of(full@) =~~= fv);
        assert forall|k: int|
            0 <= k < full@.len() implies {
            let e = #[trigger] full@[k]@;
            crate::paths::normal_path(e.path) && (e.is_dir ==> e.data.len() == 0)
        } by {
            assert(full@[k]@ == views_of(full@)[k]);
            assert(views_of(full@)[k] == fv[k]);
            if g_cfg.len() > 0 {
                if k == 0 {
                    assert(fv[0].path == config_name());
                    assert forall|b: int|
                        0 <= b < config_name().len() implies (#[trigger] config_name()[b]) != 47
                        && config_name()[b] != 46 && config_name()[b] != 0 by {}
                    assert(!crate::paths::has_dot_component(config_name()));
                    assert(!crate::paths::has_dotdot_component(config_name()));
                    assert(crate::paths::normal_path(config_name()));
                } else {
                    assert(fv[k] == g_items[k - 1]);
                }
            } else {
                assert(fv[k] == g_items[k]);
            }
        }
    }
    let tar_bytes = match tar_build(&full) {
        Ok(v) => v,
        Err(_) => {
            proof {
                if all_paths_utf8(g_items) {
                    let fv = spec_full_entries(g_items, view_opt(exec_cmd), g_dir);
                    assert forall|k: int|
                        0 <= k < full@.len() implies crate::paths::valid_utf8(
                        #[trigger] full@[k]@.path,
                    ) by {
                        assert(full@[k]@ == views_of(full@)[k]);
                        assert(views_of(full@)[k] == fv[k]);
                        if g_cfg.len() > 0 {
                            if k == 0 {
                                assert(fv[0].path == config_name());
                                assert forall|b: int|
                                    0 <= b < config_name().len() implies #[trigger] config_name()[b]
                                    < 128 by {}
                                crate::paths::lemma_ascii_valid_utf8(config_name());
                            } else {
                                assert(fv[k] == g_items[k - 1]);
                            }
                        } else {
                            assert(fv[k] == g_items[k]);
                        }
                    }
                    assert(false);
                }
            }
            return Err(SfxError::Io);
        },
    };
    let payload = zstd_compress(&tar_bytes, level);
    if stub.len() > usize::MAX - 17 || payload.len() > usize::MAX - 17 - stub.len() {
        return Err(SfxError::Io);
    }
    let archive_size: u64 = payload.len() as u64;
    let footer = encode_footer(archive_size);
    let mut c: Vec<u8> = subvec(stub, 0, stub.len());
    c.extend_from_slice(payload.as_slice());
    c.extend_from_slice(footer.as_slice());
    proof {
        assert(c@ =~= stub@ + payload@ + spec_footer(archive_size));
        crate::footer::lemma_find_payload_round_trip(stub@, payload@, archive_size);
        assert(c@.len() >= 17);
        assert(c@.subrange(c@.len() - 17, c@.len() as int) == (stub@ + payload@ + spec_footer(
            archive_size,
        )).subrange(c@.len() - 17, c@.len() as int));
        assert(crate::extract::spec_probe(c@) == Ok::<_, SfxError>(
            Some(crate::footer::PayloadInfo { start: stub@.len() as u64, size: archive_size }),
        ));
        assert(c@.subrange(stub@.len() as int, stub@.len() + archive_size) =~= payload@);
    }
    Ok(c)
}

} // verus!

