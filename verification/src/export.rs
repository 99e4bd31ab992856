//! The export side of the pipeline: choosing which directory entries a
//! backup holds, serializing them, and naming the download.
//!
//! The packer walks the data directory one level at a time; any top-level
//! entry whose name is protected is skipped whole, subtree included.

use vstd::prelude::*;
use vstd::string::StringExecFns;

use crate::archive::{
    entries_view, pack_entries, spec_pack, wf_entries, wf_entry, TarEntry, TarEntryView,
};
use crate::dirstate::{clone_entry, lemma_filter_push};
use crate::protect::{is_protected, is_protected_name, top_name, top_name_of};

verus! {

/// An entry leaves the data root with the backup when its top-level
/// component is not a protected name.
pub open spec fn exportable(e: TarEntryView) -> bool {
    !is_protected_name(top_name_of(e.path))
}

/// The export predicate as a value, so that every statement about the
/// export filter speaks of one function.
pub open spec fn export_pred() -> spec_fn(TarEntryView) -> bool {
    |e: TarEntryView| exportable(e)
}

/// The entries a backup of the given directory holds, in directory order.
pub open spec fn spec_export(dir: Seq<TarEntryView>) -> Seq<TarEntryView> {
    dir.filter(export_pred())
}

/// Selects the entries a backup holds: every entry under a protected
/// top-level name is left out, everything else is kept in order.
pub fn plan_export(dir: &Vec<TarEntry>) -> (r: Vec<TarEntry>)
    ensures
        entries_view(r@) == spec_export(entries_view(dir@)),
{
    let ghost dv = entries_view(dir@);
    let mut r: Vec<TarEntry> = Vec::new();
    let n: usize = dir.len();
    let mut i: usize = 0;
    proof {
        assert(dv.subrange(0, 0) =~= Seq::<TarEntryView>::empty());
        assert(Seq::<TarEntryView>::empty().filter(export_pred())
            =~= Seq::<TarEntryView>::empty()) by {
            reveal(Seq::filter);
        }
        assert(entries_view(r@) =~= Seq::<TarEntryView>::empty());
    }
    while i < n
        invariant
            i <= n,
            n == dir@.len(),
            dv == entries_view(dir@),
            dv.len() == n,
            entries_view(r@) == dv.subrange(0, i as int).filter(export_pred()),
        decreases n - i,
    {
        let ghost prefix = dv.subrange(0, i as int);
        proof {
            assert(dv[i as int] == dir@[i as int]@);
            assert(prefix.push(dv[i as int]) =~= dv.subrange(0, i + 1));
            lemma_filter_push(prefix, export_pred(), dv[i as int]);
        }
        let top = top_name(dir[i].path.as_slice());
        if !is_protected(top.as_slice()) {
            let e = clone_entry(&dir[i]);
            let ghost old_r = r@;
            r.push(e);
            proof {
                assert(entries_view(r@) =~= entries_view(old_r).push(dv[i as int]));
            }
        }
        i = i + 1;
    }
    proof {
        assert(dv.subrange(0, n as int) =~= dv);
    }
    r
}

/// Every entry of a well-formed directory stays well formed through the
/// export filter.
pub proof fn lemma_export_preserves_wf(dir: Seq<TarEntryView>)
    requires
        wf_entries(dir),
    ensures
        wf_entries(spec_export(dir)),
{
    crate::dirstate::lemma_filter_subset(dir, export_pred());
    assert forall|i: int| 0 <= i < spec_export(dir).len() implies wf_entry(
        #[trigger] spec_export(dir)[i],
    ) by {
        let e = spec_export(dir)[i];
        assert(dir.contains(e));
        let j = choose|j: int| 0 <= j < dir.len() && dir[j] == e;
        assert(wf_entry(dir[j]));
    }
}

/// Serializes a backup of the directory: the exportable entries, packed as
/// one tar archive.
pub fn export_archive(dir: &Vec<TarEntry>) -> (out: Vec<u8>)
    requires
        wf_entries(entries_view(dir@)),
    ensures
        out@ == spec_pack(spec_export(entries_view(dir@))),
{
    let selected = plan_export(dir);
    proof {
        lemma_export_preserves_wf(entries_view(dir@));
    }
    pack_entries(&selected)
}

/// Relies on chrono's `Local::now` and strftime formatting to render the
/// current local time; the result depends on the clock, so nothing is
/// promised of it.
#[verifier::external_body]
fn local_timestamp_compact() -> (r: String) {
    let now = chrono::Local::now();
    now.format("%Y%m%d_%H%M%S").to_string()
}

/// The attachment name of a backup download for a given timestamp text.
pub fn backup_filename(ts: &str) -> (r: String)
    ensures
        r@ == "piney_backup_"@ + ts@ + ".piney"@,
{
    let mut r: String = "piney_backup_".to_owned();
    r.append(ts);
    r.append(".piney");
    r
}

/// Names a fresh backup download after the current local time.
pub fn fresh_backup_filename() -> (r: String)
    ensures
        exists|ts: Seq<char>| r@ == "piney_backup_"@ + ts + ".piney"@,
{
    let ts = local_timestamp_compact();
    let r = backup_filename(ts.as_str());
    proof {
        assert(r@ == "piney_backup_"@ + ts@ + ".piney"@);
    }
    r
}

} // verus!
