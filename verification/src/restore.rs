//! The import side of the pipeline: validating an uploaded archive,
//! planning the wipe of the data directory, selecting which members are
//! extracted, and the laws that hold of the outcome.

use vstd::prelude::*;

use crate::archive::{entries_view, TarEntry, TarEntryView};
use crate::dirstate::{
    clone_bytes, clone_entry, dir_map, lemma_dir_map_concat, lemma_dir_map_dom,
    lemma_dir_map_filter_absorb, lemma_filter_all, lemma_filter_push,
};
use crate::errors::BackupError;
use crate::gz::{decode_archive, spec_decode};
use crate::protect::{basename, basename_of, is_protected, is_protected_name, is_safe_rel_path,
    safe_rel_path, top_name, top_name_of};

verus! {

/// An entry of the data directory survives the wipe when its top-level
/// component is a protected name.
pub open spec fn kept_on_wipe(e: TarEntryView) -> bool {
    is_protected_name(top_name_of(e.path))
}

/// The wipe-survivor predicate as a value.
pub open spec fn keep_pred() -> spec_fn(TarEntryView) -> bool {
    |e: TarEntryView| kept_on_wipe(e)
}

/// An archive member is extracted when its base name is not protected and
/// its path resolves safely under the destination.
pub open spec fn extractable(e: TarEntryView) -> bool {
    !is_protected_name(basename_of(e.path)) && safe_rel_path(e.path)
}

/// The extraction predicate as a value.
pub open spec fn extract_pred() -> spec_fn(TarEntryView) -> bool {
    |e: TarEntryView| extractable(e)
}

/// What the wipe leaves of a directory.
pub open spec fn spec_kept(dir: Seq<TarEntryView>) -> Seq<TarEntryView> {
    dir.filter(keep_pred())
}

/// The members of an archive that are written during extraction, in order.
pub open spec fn spec_extracted(es: Seq<TarEntryView>) -> Seq<TarEntryView> {
    es.filter(extract_pred())
}

/// The write sequence a successful import performs: what the wipe left,
/// then every extracted member.
pub open spec fn spec_import_result(
    dir: Seq<TarEntryView>,
    es: Seq<TarEntryView>,
) -> Seq<TarEntryView> {
    spec_kept(dir) + spec_extracted(es)
}

/// The deep view of a list of names.
pub open spec fn names_view(s: Seq<Vec<u8>>) -> Seq<Seq<u8>> {
    s.map_values(|v: Vec<u8>| v@)
}

/// The top-level names that the wipe deletes: everything except protected
/// names.
pub open spec fn spec_wipe_list(names: Seq<Seq<u8>>) -> Seq<Seq<u8>> {
    names.filter(|n: Seq<u8>| !is_protected_name(n))
}

/// Selects, from the top-level names of the data directory, those the wipe
/// deletes. Protected names are never listed.
pub fn plan_wipe(names: &Vec<Vec<u8>>) -> (r: Vec<Vec<u8>>)
    ensures
        names_view(r@) == spec_wipe_list(names_view(names@)),
        forall|i: int| 0 <= i < r@.len() ==> !is_protected_name(#[trigger] r@[i]@),
{
    let ghost nv = names_view(names@);
    let mut r: Vec<Vec<u8>> = Vec::new();
    let n: usize = names.len();
    let mut i: usize = 0;
    proof {
        assert(nv.subrange(0, 0) =~= Seq::<Seq<u8>>::empty());
        assert(Seq::<Seq<u8>>::empty().filter(|n: Seq<u8>| !is_protected_name(n)) =~= Seq::<
            Seq<u8>,
        >::empty()) by {
            reveal(Seq::filter);
        }
        assert(names_view(r@) =~= Seq::<Seq<u8>>::empty());
    }
    while i < n
        invariant
            i <= n,
            n == names@.len(),
            nv == names_view(names@),
            nv.len() == n,
            names_view(r@) == nv.subrange(0, i as int).filter(|n: Seq<u8>| !is_protected_name(n)),
            forall|j: int| 0 <= j < r@.len() ==> !is_protected_name(#[trigger] r@[j]@),
        decreases n - i,
    {
        let ghost prefix = nv.subrange(0, i as int);
        proof {
            assert(nv[i as int] == names@[i as int]@);
            assert(prefix.push(nv[i as int]) =~= nv.subrange(0, i + 1));
            lemma_name_filter_push(prefix, nv[i as int]);
        }
        if !is_protected(names[i].as_slice()) {
            let ghost old_r = r@;
            r.push(clone_bytes(&names[i]));
            proof {
                assert(names_view(r@) =~= names_view(old_r).push(nv[i as int]));
            }
        }
        i = i + 1;
    }
    proof {
        assert(nv.subrange(0, n as int) =~= nv);
    }
    r
}

/// Filtering a name list extended by one name keeps it exactly when it is
/// not protected.
proof fn lemma_name_filter_push(s: Seq<Seq<u8>>, x: Seq<u8>)
    ensures
        s.push(x).filter(|n: Seq<u8>| !is_protected_name(n)) == if !is_protected_name(x) {
            s.filter(|n: Seq<u8>| !is_protected_name(n)).push(x)
        } else {
            s.filter(|n: Seq<u8>| !is_protected_name(n))
        },
{
    reveal(Seq::filter);
    assert(s.push(x).drop_last() =~= s);
    assert(s.push(x).last() == x);
}

/// Selects the members of a read archive that extraction writes.
pub fn plan_extract(es: &Vec<TarEntry>) -> (r: Vec<TarEntry>)
    ensures
        entries_view(r@) == spec_extracted(entries_view(es@)),
{
    let ghost ev = entries_view(es@);
    let mut r: Vec<TarEntry> = Vec::new();
    let n: usize = es.len();
    let mut i: usize = 0;
    proof {
        assert(ev.subrange(0, 0) =~= Seq::<TarEntryView>::empty());
        assert(Seq::<TarEntryView>::empty().filter(extract_pred()) =~= Seq::<
            TarEntryView,
        >::empty()) by {
            reveal(Seq::filter);
        }
        assert(entries_view(r@) =~= Seq::<TarEntryView>::empty());
    }
    while i < n
        invariant
            i <= n,
            n == es@.len(),
            ev == entries_view(es@),
            ev.len() == n,
            entries_view(r@) == ev.subrange(0, i as int).filter(extract_pred()),
        decreases n - i,
    {
        let ghost prefix = ev.subrange(0, i as int);
        proof {
            assert(ev[i as int] == es@[i as int]@);
            assert(prefix.push(ev[i as int]) =~= ev.subrange(0, i + 1));
            lemma_filter_push(prefix, extract_pred(), ev[i as int]);
        }
        let base = basename(es[i].path.as_slice());
        if !is_protected(base.as_slice()) && is_safe_rel_path(es[i].path.as_slice()) {
            let ghost old_r = r@;
            r.push(clone_entry(&es[i]));
            proof {
                assert(entries_view(r@) =~= entries_view(old_r).push(ev[i as int]));
            }
        }
        i = i + 1;
    }
    proof {
        assert(ev.subrange(0, n as int) =~= ev);
    }
    r
}

/// Selects what the wipe leaves of the data directory.
pub fn plan_kept(dir: &Vec<TarEntry>) -> (r: Vec<TarEntry>)
    ensures
        entries_view(r@) == spec_kept(entries_view(dir@)),
{
    let ghost dv = entries_view(dir@);
    let mut r: Vec<TarEntry> = Vec::new();
    let n: usize = dir.len();
    let mut i: usize = 0;
    proof {
        assert(dv.subrange(0, 0) =~= Seq::<TarEntryView>::empty());
        assert(Seq::<TarEntryView>::empty().filter(keep_pred()) =~= Seq::<
            TarEntryView,
        >::empty()) by {
            reveal(Seq::filter);
        }
        assert(entries_view(r@) =~= Seq::<TarEntryView>::empty());
    }
    while i < n
        invariant
            i <= n,
            n == dir@.len(),
            dv == entries_view(dir@),
            dv.len() == n,
            entries_view(r@) == dv.subrange(0, i as int).filter(keep_pred()),
        decreases n - i,
    {
        let ghost prefix = dv.subrange(0, i as int);
        proof {
            assert(dv[i as int] == dir@[i as int]@);
            assert(prefix.push(dv[i as int]) =~= dv.subrange(0, i + 1));
            lemma_filter_push(prefix, keep_pred(), dv[i as int]);
        }
        let top = top_name(dir[i].path.as_slice());
        if is_protected(top.as_slice()) {
            let ghost old_r = r@;
            r.push(clone_entry(&dir[i]));
            proof {
                assert(entries_view(r@) =~= entries_view(old_r).push(dv[i as int]));
            }
        }
        i = i + 1;
    }
    proof {
        assert(dv.subrange(0, n as int) =~= dv);
    }
    r
}

/// Runs a whole import against a directory snapshot: validates the blob,
/// and on success produces the write sequence of the restored directory.
/// When validation fails, the error is the only effect.
pub fn apply_import(dir: &Vec<TarEntry>, blob: &[u8]) -> (r: Result<Vec<TarEntry>, BackupError>)
    ensures
        match r {
            Ok(res) => spec_decode(blob@) is Some && entries_view(res@) == spec_import_result(
                entries_view(dir@),
                (spec_decode(blob@)->0).1,
            ),
            Err(e) => e == BackupError::InvalidArchive && spec_decode(blob@) is None,
        },
{
    let decoded = match decode_archive(blob) {
        Ok(p) => p,
        Err(e) => {
            return Err(e);
        },
    };
    let mut out = plan_kept(dir);
    let ghost kept = entries_view(out@);
    let mut adds = plan_extract(&decoded.1);
    let ghost added = entries_view(adds@);
    out.append(&mut adds);
    proof {
        assert(entries_view(out@) =~= kept + added);
    }
    Ok(out)
}

/// No archive member whose base name is protected is ever written during
/// extraction, whether or not the destination held a file of that name.
pub proof fn lemma_no_protected_writes(es: Seq<TarEntryView>, i: int)
    requires
        0 <= i < spec_extracted(es).len(),
    ensures
        !is_protected_name(basename_of(spec_extracted(es)[i].path)),
{
    broadcast use vstd::seq_lib::group_filter_ensures;

    assert(extract_pred()(spec_extracted(es)[i]));
}

/// Extraction only adds entries: any path with a protected base name maps
/// to the same entry after extraction as before, present or absent alike.
pub proof fn lemma_extract_preserves_protected(
    dest: Seq<TarEntryView>,
    es: Seq<TarEntryView>,
    p: Seq<u8>,
)
    requires
        is_protected_name(basename_of(p)),
    ensures
        dir_map(dest + spec_extracted(es)).contains_key(p) == dir_map(dest).contains_key(p),
        dir_map(dest).contains_key(p) ==> dir_map(dest + spec_extracted(es))[p] == dir_map(
            dest,
        )[p],
{
    lemma_dir_map_concat(dest, spec_extracted(es));
    if dir_map(spec_extracted(es)).contains_key(p) {
        lemma_dir_map_dom(spec_extracted(es), p);
        let i = choose|i: int|
            0 <= i < spec_extracted(es).len() && #[trigger] spec_extracted(es)[i].path == p;
        lemma_no_protected_writes(es, i);
    }
}

/// Importing the same valid archive twice yields the same directory as
/// importing it once.
pub proof fn lemma_import_idempotent(dir: Seq<TarEntryView>, es: Seq<TarEntryView>)
    ensures
        dir_map(spec_import_result(spec_import_result(dir, es), es)) == dir_map(
            spec_import_result(dir, es),
        ),
{
    broadcast use vstd::seq_lib::group_filter_ensures;

    let kept = spec_kept(dir);
    let ext = spec_extracted(es);
    let r1 = spec_import_result(dir, es);
    assert(spec_kept(r1) == spec_kept(kept) + spec_kept(ext)) by {
        Seq::filter_distributes_over_add(kept, ext, keep_pred());
    }
    assert(spec_kept(kept) == kept) by {
        assert(forall|i: int| 0 <= i < kept.len() ==> keep_pred()(#[trigger] kept[i]));
        lemma_filter_all(kept, keep_pred());
    }
    let ka = dir_map(kept);
    let kb = dir_map(spec_kept(ext));
    let kc = dir_map(ext);
    lemma_dir_map_concat(spec_kept(r1), ext);
    lemma_dir_map_concat(kept + spec_kept(ext), ext);
    lemma_dir_map_concat(kept, spec_kept(ext));
    lemma_dir_map_concat(kept, ext);
    lemma_dir_map_filter_absorb(ext, keep_pred());
    assert(kb.union_prefer_right(kc) == kc);
    assert(ka.union_prefer_right(kb).union_prefer_right(kc) =~= ka.union_prefer_right(
        kb.union_prefer_right(kc),
    ));
    assert(dir_map(spec_import_result(r1, es)) == ka.union_prefer_right(kc));
    assert(dir_map(r1) == ka.union_prefer_right(kc));
}


/// Two successive path filters equal one filter by their conjunction.
proof fn lemma_filter_and(
    s: Seq<TarEntryView>,
    p1: spec_fn(TarEntryView) -> bool,
    p2: spec_fn(TarEntryView) -> bool,
    pc: spec_fn(TarEntryView) -> bool,
)
    requires
        forall|e: TarEntryView| #[trigger] pc(e) == (p1(e) && p2(e)),
    ensures
        s.filter(p1).filter(p2) == s.filter(pc),
    decreases s.len(),
{
    reveal(Seq::filter);
    if s.len() > 0 {
        lemma_filter_and(s.drop_last(), p1, p2, pc);
        let d = s.drop_last();
        if p1(s.last()) {
            assert(s.filter(p1) == d.filter(p1).push(s.last()));
            lemma_filter_push(d.filter(p1), p2, s.last());
        }
    }
}

/// An entry survives the whole round trip when it sits under no protected
/// top-level name and is not itself named like a protected file.
pub open spec fn round_trip_pred() -> spec_fn(TarEntryView) -> bool {
    |e: TarEntryView| crate::export::exportable(e) && extractable(e)
}

/// Round trip: packing a directory and unpacking the archive into an empty
/// destination reproduces exactly the entries whose top-level component and
/// base name are both unprotected, with their bytes; protected-named files
/// are never produced by the pack step.
pub proof fn lemma_backup_round_trip(dir: Seq<TarEntryView>)
    requires
        crate::archive::wf_entries(dir),
    ensures
        crate::archive::spec_parse(crate::archive::spec_pack(crate::export::spec_export(dir)))
            == Some(crate::export::spec_export(dir)),
        dir_map(spec_import_result(Seq::empty(), crate::export::spec_export(dir))) == dir_map(
            dir.filter(round_trip_pred()),
        ),
{
    let exported = crate::export::spec_export(dir);
    crate::export::lemma_export_preserves_wf(dir);
    crate::archive::lemma_parse_pack(exported);
    assert(spec_kept(Seq::empty()) =~= Seq::<TarEntryView>::empty()) by {
        reveal(Seq::filter);
    }
    assert(spec_import_result(Seq::empty(), exported) =~= spec_extracted(exported));
    lemma_filter_and(dir, crate::export::export_pred(), extract_pred(), round_trip_pred());
    assert(spec_extracted(exported) == dir.filter(round_trip_pred()));
}

} // verus!
