//! What adding a folder and dropping paths do to the file list, stated over
//! the inputs: every PDF offered ends up listed, what joins was offered and
//! not listed before, and the log reports how many joined.
use vstd::prelude::*;
use crate::paths::{eq_ignore_ascii_case, unicode_lowercase};
use crate::sorting::{lemma_sort_spec_permutes, sorted_texts, text_le};
use crate::state::{
    drop_added, drop_outcome, drop_step, drop_steps, folder_added, folder_pdfs, folder_step,
    is_pdf_entry, list_view_of, new_paths, paths_of, pdf_paths, DroppedPath, InvoiceQrApp,
    ListView, PathEntry,
};
use crate::text::decimal;

verus! {

/// Whether `x` is a PDF offered by the dropped path `p`: a dropped file whose
/// extension lower-cases to `pdf`, or an entry of a dropped folder whose
/// extension is `pdf` in any ASCII case.
pub open spec fn is_dropped_pdf(p: DroppedPath, x: Seq<char>) -> bool {
    match p {
        DroppedPath::File(e) => e.path@ == x && (e.extension matches Some(y) && unicode_lowercase(
            y@,
        ) == "pdf"@),
        DroppedPath::Folder(es) => exists|m: int|
            0 <= m < es@.len() && #[trigger] es@[m].path@ == x && (es@[m].extension matches Some(y)
                && eq_ignore_ascii_case(y@, "pdf"@)),
        DroppedPath::Other => false,
    }
}

proof fn lemma_pdf_paths_members(entries: Seq<PathEntry>)
    ensures
        forall|k: int|
            0 <= k < entries.len() && is_pdf_entry(#[trigger] entries[k]) ==> pdf_paths(
                entries,
            ).contains(entries[k].path@),
        forall|x: Seq<char>|
            #[trigger] pdf_paths(entries).contains(x) ==> exists|k: int|
                0 <= k < entries.len() && is_pdf_entry(#[trigger] entries[k]) && entries[k].path@
                    == x,
    decreases entries.len(),
{
    if entries.len() > 0 {
        let prev = entries.drop_last();
        lemma_pdf_paths_members(prev);
        let p = pdf_paths(prev);
        let l = entries.last();
        assert forall|k: int|
            0 <= k < entries.len() && is_pdf_entry(#[trigger] entries[k]) implies pdf_paths(
            entries,
        ).contains(entries[k].path@) by {
            if k < prev.len() {
                assert(prev[k] == entries[k]);
                let w = choose|w: int| 0 <= w < p.len() && p[w] == prev[k].path@;
                if is_pdf_entry(l) {
                    assert(pdf_paths(entries)[w] == p[w]);
                }
            } else {
                assert(pdf_paths(entries) == p.push(l.path@));
                assert(pdf_paths(entries)[p.len() as int] == l.path@);
            }
        }
        assert forall|x: Seq<char>| #[trigger] pdf_paths(entries).contains(x) implies exists|k: int|
            0 <= k < entries.len() && is_pdf_entry(#[trigger] entries[k]) && entries[k].path@
                == x by {
            let w = choose|w: int| 0 <= w < pdf_paths(entries).len() && pdf_paths(entries)[w] == x;
            if w < p.len() {
                assert(p[w] == x);
                assert(p.contains(x));
                let k = choose|k: int|
                    0 <= k < prev.len() && is_pdf_entry(#[trigger] prev[k]) && prev[k].path@ == x;
                assert(entries[k] == prev[k]);
            } else {
                assert(entries[entries.len() - 1] == l);
            }
        }
    }
}

proof fn lemma_new_paths_members(list: Seq<Seq<char>>, cands: Seq<Seq<char>>)
    ensures
        forall|x: Seq<char>|
            #[trigger] cands.contains(x) ==> list.contains(x) || new_paths(list, cands).contains(x),
        forall|x: Seq<char>|
            #[trigger] new_paths(list, cands).contains(x) ==> cands.contains(x) && !list.contains(x),
    decreases cands.len(),
{
    if cands.len() > 0 {
        let prev = cands.drop_last();
        lemma_new_paths_members(list, prev);
        let p = new_paths(list, prev);
        let l = cands.last();
        assert forall|x: Seq<char>| #[trigger] cands.contains(x) implies list.contains(x)
            || new_paths(list, cands).contains(x) by {
            let w = choose|w: int| 0 <= w < cands.len() && cands[w] == x;
            if w < prev.len() {
                assert(prev[w] == x);
                assert(prev.contains(x));
                if !list.contains(x) {
                    let v = choose|v: int| 0 <= v < p.len() && p[v] == x;
                    assert(new_paths(list, cands)[v] == p[v]);
                }
            } else if !list.contains(x) {
                assert(new_paths(list, cands) == p.push(l));
                assert(new_paths(list, cands)[p.len() as int] == l);
            }
        }
        assert forall|x: Seq<char>| #[trigger] new_paths(list, cands).contains(x) implies cands.contains(
            x,
        ) && !list.contains(x) by {
            let v = choose|v: int|
                0 <= v < new_paths(list, cands).len() && new_paths(list, cands)[v] == x;
            if v < p.len() {
                assert(p[v] == x);
                assert(p.contains(x));
                let w = choose|w: int| 0 <= w < prev.len() && prev[w] == x;
                assert(cands[w] == x);
            } else {
                assert(cands[cands.len() - 1] == l);
            }
        }
    }
}

proof fn lemma_new_paths_sorted(list: Seq<Seq<char>>, cands: Seq<Seq<char>>)
    requires
        sorted_texts(cands),
    ensures
        sorted_texts(new_paths(list, cands)),
    decreases cands.len(),
{
    if cands.len() > 0 {
        let prev = cands.drop_last();
        assert(sorted_texts(prev)) by {
            assert forall|i: int, j: int| 0 <= i < j < prev.len() implies text_le(
                #[trigger] prev[i],
                #[trigger] prev[j],
            ) by {
                assert(prev[i] == cands[i] && prev[j] == cands[j]);
            }
        }
        lemma_new_paths_sorted(list, prev);
        lemma_new_paths_members(list, prev);
        let p = new_paths(list, prev);
        let l = cands.last();
        if !list.contains(l) {
            let q = p.push(l);
            assert forall|i: int, j: int| 0 <= i < j < q.len() implies text_le(
                #[trigger] q[i],
                #[trigger] q[j],
            ) by {
                if j < p.len() {
                    assert(q[i] == p[i] && q[j] == p[j]);
                } else {
                    assert(q[i] == p[i]);
                    assert(p.contains(p[i]));
                    let w = choose|w: int| 0 <= w < prev.len() && prev[w] == p[i];
                    assert(cands[w] == p[i]);
                    assert(q[j] == cands[cands.len() - 1]);
                }
            }
        }
    }
}

/// The facts of one folder step, over the state's list view.
proof fn lemma_folder_step_facts(s: ListView, entries: Seq<PathEntry>)
    ensures
        folder_step(s, entries).list.len() >= s.list.len(),
        folder_step(s, entries).list.take(s.list.len() as int) == s.list,
        folder_step(s, entries).added == s.added + folder_step(s, entries).list.len()
            - s.list.len(),
        forall|k: int|
            0 <= k < entries.len() && is_pdf_entry(#[trigger] entries[k]) ==> folder_step(
                s,
                entries,
            ).list.contains(entries[k].path@),
        forall|j: int|
            s.list.len() <= j < folder_step(s, entries).list.len() ==> !s.list.contains(
                #[trigger] folder_step(s, entries).list[j],
            ) && exists|k: int|
                0 <= k < entries.len() && is_pdf_entry(#[trigger] entries[k]) && entries[k].path@
                    == folder_step(s, entries).list[j],
        sorted_texts(
            folder_step(s, entries).list.subrange(
                s.list.len() as int,
                folder_step(s, entries).list.len() as int,
            ),
        ),
        folder_step(s, entries).logs.len() >= s.logs.len(),
        folder_step(s, entries).logs.take(s.logs.len() as int) == s.logs,
        folder_step(s, entries).list.len() == s.list.len() ==> folder_step(s, entries) == s,
{
    let c = folder_pdfs(entries);
    let a = new_paths(s.list, c);
    let r = folder_step(s, entries);
    let n = s.list.len() as int;
    broadcast use vstd::seq_lib::group_to_multiset_ensures;

    lemma_pdf_paths_members(entries);
    lemma_sort_spec_permutes(pdf_paths(entries));
    crate::sorting::lemma_sort_spec_sorted(pdf_paths(entries));
    lemma_new_paths_members(s.list, c);
    lemma_new_paths_sorted(s.list, c);
    assert(r.list == s.list + a);
    assert((s.list + a).take(n) =~= s.list);
    assert((s.list + a).subrange(n, (s.list + a).len() as int) =~= a);
    assert(r.logs.take(s.logs.len() as int) =~= s.logs);
    assert forall|k: int| 0 <= k < entries.len() && is_pdf_entry(#[trigger] entries[k]) implies r.list.contains(
        entries[k].path@,
    ) by {
        let x = entries[k].path@;
        assert(pdf_paths(entries).contains(x));
        assert(pdf_paths(entries).to_multiset().count(x) > 0);
        assert(c.contains(x));
        if s.list.contains(x) {
            let w = choose|w: int| 0 <= w < s.list.len() && s.list[w] == x;
            assert((s.list + a)[w] == x);
        } else {
            assert(a.contains(x));
            let w = choose|w: int| 0 <= w < a.len() && a[w] == x;
            assert((s.list + a)[n + w] == x);
        }
    }
    assert forall|j: int| n <= j < r.list.len() implies !s.list.contains(#[trigger] r.list[j]) && exists|
        k: int,
    |
        0 <= k < entries.len() && is_pdf_entry(#[trigger] entries[k]) && entries[k].path@
            == r.list[j] by {
        let x = r.list[j];
        assert(x == a[j - n]);
        assert(a.contains(x));
        assert(c.contains(x));
        assert(c.to_multiset().count(x) > 0);
        assert(pdf_paths(entries).contains(x));
        let k = choose|k: int|
            0 <= k < entries.len() && is_pdf_entry(#[trigger] entries[k]) && entries[k].path@ == x;
        assert(0 <= k < entries.len() && is_pdf_entry(entries[k]) && entries[k].path@ == r.list[j]);
    }
}

/// Adding a folder never takes a file off the list or moves one; afterwards
/// every entry whose extension is `pdf` in any ASCII case is listed; what
/// joined was an entry of the folder with that extension, not listed before,
/// and joined in ascending order; and the log says how many joined, with the
/// status line giving the new length. Where nothing joined, log and status
/// line stay as they were.
pub proof fn law_folder_adds_every_pdf(a: InvoiceQrApp, b: InvoiceQrApp, entries: Seq<PathEntry>)
    requires
        folder_added(a, b, entries),
    ensures
        ({
            let before = paths_of(a);
            let after = paths_of(b);
            let n = (after.len() - before.len()) as nat;
            &&& after.len() >= before.len()
            &&& after.take(before.len() as int) == before
            &&& forall|k: int|
                0 <= k < entries.len() && ((#[trigger] entries[k]).extension matches Some(x)
                    && eq_ignore_ascii_case(x@, "pdf"@)) ==> after.contains(entries[k].path@)
            &&& forall|j: int|
                before.len() <= j < after.len() ==> !before.contains(#[trigger] after[j]) && exists|
                    k: int,
                |
                    0 <= k < entries.len() && (#[trigger] entries[k]).path@ == after[j] && (
                    entries[k].extension matches Some(x) && eq_ignore_ascii_case(x@, "pdf"@))
            &&& forall|i: int, j: int|
                before.len() <= i < j < after.len() ==> text_le(#[trigger] after[i], #[trigger] after[j])
            &&& n > 0 ==> b.logs@ == a.logs@ + "从文件夹添加了 "@ + decimal(n) + " 个PDF文件"@ + "\n"@
                && b.status_text@ == "共 "@ + decimal(after.len()) + " 个文件"@
            &&& n == 0 ==> b.logs@ == a.logs@ && b.status_text@ == a.status_text@
        }),
{
    let s = list_view_of(a);
    lemma_folder_step_facts(s, entries);
    let r = folder_step(s, entries);
    let before = paths_of(a);
    let after = paths_of(b);
    let d = before.len() as int;
    let sub = after.subrange(d, after.len() as int);
    assert forall|i: int, j: int| d <= i < j < after.len() implies text_le(
        #[trigger] after[i],
        #[trigger] after[j],
    ) by {
        assert(sub[i - d] == after[i] && sub[j - d] == after[j]);
    }
}

/// Whether `x`, which joined `list` in a drop of `ps`, was not in it before
/// and is a PDF one of the dropped paths offered.
pub open spec fn joined_from_drop(list: Seq<Seq<char>>, ps: Seq<DroppedPath>, x: Seq<char>) -> bool {
    &&& !list.contains(x)
    &&& exists|k: int| 0 <= k < ps.len() && #[trigger] is_dropped_pdf(ps[k], x)
}

/// The facts of a sequence of drop steps.
proof fn lemma_drop_steps_facts(s: ListView, ps: Seq<DroppedPath>)
    ensures
        drop_steps(s, ps).list.len() >= s.list.len(),
        drop_steps(s, ps).list.take(s.list.len() as int) == s.list,
        drop_steps(s, ps).added == s.added + drop_steps(s, ps).list.len() - s.list.len(),
        forall|k: int, x: Seq<char>|
            0 <= k < ps.len() && #[trigger] is_dropped_pdf(ps[k], x) ==> drop_steps(
                s,
                ps,
            ).list.contains(x),
        forall|j: int|
            s.list.len() <= j < drop_steps(s, ps).list.len() ==> joined_from_drop(
                s.list,
                ps,
                #[trigger] drop_steps(s, ps).list[j],
            ),
        drop_steps(s, ps).logs.len() >= s.logs.len(),
        drop_steps(s, ps).logs.take(s.logs.len() as int) == s.logs,
        drop_steps(s, ps).list.len() == s.list.len() ==> drop_steps(s, ps).logs == s.logs
            && drop_steps(s, ps).status == s.status,
    decreases ps.len(),
{
    let n = s.list.len() as int;
    if ps.len() == 0 {
        assert(drop_steps(s, ps) == s);
        assert(s.list.take(n) =~= s.list);
        assert(s.logs.take(s.logs.len() as int) =~= s.logs);
    } else {
        let prev = ps.drop_last();
        lemma_drop_steps_facts(s, prev);
        let q = drop_steps(s, prev);
        let r = drop_steps(s, ps);
        let p = ps.last();
        let m = q.list.len() as int;
        assert(r == drop_step(q, p));
        // What the last step keeps and adds.
        match p {
            DroppedPath::Folder(es) => {
                lemma_folder_step_facts(q, es@);
            },
            DroppedPath::File(e) => {
                if r.list != q.list {
                    assert(r.list == q.list.push(e.path@));
                    assert(q.list.push(e.path@).take(m) =~= q.list);
                    assert(r.list[m] == e.path@);
                } else {
                    assert(q.list.take(m) =~= q.list);
                }
            },
            DroppedPath::Other => {
                assert(q.list.take(m) =~= q.list);
            },
        }
        assert(r.list.len() >= m);
        assert(r.list.take(m) == q.list);
        assert(r.list.take(n) =~= q.list.take(n));
        assert(r.logs.take(q.logs.len() as int) == q.logs);
        assert(r.logs.take(s.logs.len() as int) =~= q.logs.take(s.logs.len() as int));
        assert forall|k: int, x: Seq<char>|
            0 <= k < ps.len() && #[trigger] is_dropped_pdf(ps[k], x) implies r.list.contains(x) by {
            if k < prev.len() {
                assert(prev[k] == ps[k]);
                assert(is_dropped_pdf(prev[k], x));
                assert(q.list.contains(x));
                let w = choose|w: int| 0 <= w < q.list.len() && q.list[w] == x;
                assert(r.list.take(m)[w] == x);
            } else {
                assert(ps[k] == p);
                match p {
                    DroppedPath::Folder(es) => {
                        let t = choose|t: int|
                            0 <= t < es@.len() && #[trigger] es@[t].path@ == x && (
                            es@[t].extension matches Some(y) && eq_ignore_ascii_case(y@, "pdf"@));
                        assert(is_pdf_entry(es@[t]));
                    },
                    DroppedPath::File(e) => {
                        if q.list.contains(x) {
                            let w = choose|w: int| 0 <= w < q.list.len() && q.list[w] == x;
                            assert(r.list.take(m)[w] == x);
                        } else {
                            assert(r.list[m] == x);
                        }
                    },
                    DroppedPath::Other => {},
                }
            }
        }
        assert forall|j: int| n <= j < r.list.len() implies joined_from_drop(
            s.list,
            ps,
            #[trigger] r.list[j],
        ) by {
            let x = r.list[j];
            if j < m {
                assert(r.list.take(m)[j] == q.list[j]);
                let k = choose|k: int| 0 <= k < prev.len() && #[trigger] is_dropped_pdf(prev[k], x);
                assert(prev[k] == ps[k]);
                assert(0 <= k < ps.len() && is_dropped_pdf(ps[k], r.list[j]));
                assert(!s.list.contains(x));
            } else {
                assert(ps[ps.len() - 1] == p);
                assert(s.list == q.list.take(n));
                match p {
                    DroppedPath::Folder(es) => {
                        assert(!q.list.contains(x));
                        let k = choose|k: int|
                            0 <= k < es@.len() && is_pdf_entry(#[trigger] es@[k]) && es@[k].path@
                                == x;
                        assert(is_dropped_pdf(p, x));
                    },
                    DroppedPath::File(e) => {
                        assert(r.list == q.list.push(e.path@));
                        assert(x == e.path@);
                        assert(!q.list.contains(x));
                        assert(is_dropped_pdf(p, x));
                    },
                    DroppedPath::Other => {},
                }
                if s.list.contains(x) {
                    let w = choose|w: int| 0 <= w < s.list.len() && s.list[w] == x;
                    assert(q.list[w] == x);
                    assert(q.list.contains(x));
                }
                let k = ps.len() - 1;
                assert(0 <= k < ps.len() && is_dropped_pdf(ps[k], r.list[j]));
            }
        }
    }
}

/// A drop never takes a file off the list or moves one; afterwards every
/// dropped file whose extension lower-cases to `pdf`, and every entry of a
/// dropped folder whose extension is `pdf` in any ASCII case, is listed; what
/// joined was such a PDF and was not listed before; and where anything
/// joined, the log ends with a line that gives how many, and the status line
/// gives the new length. Where nothing joined, log and status line stay as
/// they were.
pub proof fn law_drop_adds_every_pdf(a: InvoiceQrApp, b: InvoiceQrApp, ps: Seq<DroppedPath>)
    requires
        drop_added(a, b, ps),
    ensures
        ({
            let before = paths_of(a);
            let after = paths_of(b);
            let n = (after.len() - before.len()) as nat;
            &&& after.len() >= before.len()
            &&& after.take(before.len() as int) == before
            &&& forall|k: int, x: Seq<char>|
                0 <= k < ps.len() && #[trigger] is_dropped_pdf(ps[k], x) ==> after.contains(x)
            &&& forall|j: int|
                before.len() <= j < after.len() ==> !before.contains(#[trigger] after[j]) && exists|
                    k: int,
                | 0 <= k < ps.len() && #[trigger] is_dropped_pdf(ps[k], after[j])
            &&& n > 0 ==> b.logs@.take(a.logs@.len() as int) == a.logs@ && b.logs@ == b.logs@.take(
                b.logs@.len() - ("拖入添加了 "@ + decimal(n) + " 个文件"@ + "\n"@).len(),
            ) + "拖入添加了 "@ + decimal(n) + " 个文件"@ + "\n"@ && b.status_text@ == "共 "@
                + decimal(after.len()) + " 个文件"@
            &&& n == 0 ==> b.logs@ == a.logs@ && b.status_text@ == a.status_text@
        }),
{
    let s = list_view_of(a);
    lemma_drop_steps_facts(s, ps);
    let r = drop_steps(s, ps);
    let o = drop_outcome(s, ps);
    let before = paths_of(a);
    let after = paths_of(b);
    let n = (after.len() - before.len()) as nat;
    if n > 0 {
        let line = "拖入添加了 "@ + decimal(n) + " 个文件"@ + "\n"@;
        assert(o.logs == r.logs + line);
        assert((r.logs + line).take(r.logs.len() as int) =~= r.logs);
        assert((r.logs + line).take(a.logs@.len() as int) =~= r.logs.take(a.logs@.len() as int));
        assert(b.logs@ =~= b.logs@.take(b.logs@.len() - line.len()) + line);
    }
}

} // verus!
