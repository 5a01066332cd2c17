//! Laws of the search engine, stated over the spec functions that the
//! executable functions are proved against.

use vstd::prelude::*;
use crate::text::{contains, first_occurrence, lemma_first_occurrence, occurs_at};
use crate::search::{
    contents_in_entries, contents_in_listing, contents_of_entry, file_hits, is_dot_name, lines_hits,
    names_in_entries, names_in_listing, names_of_entry, DirEntry, DirListing, EntryContents,
    ErrView, Grabber, MatchView,
};

verus! {

/// The paths of the files and symbolic links in `s` that contain `term`, in order.
pub open spec fn paths_matching(s: Seq<DirEntry>, term: Seq<u8>) -> Seq<Seq<u8>>
    decreases s.len(),
{
    if s.len() == 0 {
        Seq::empty()
    } else {
        let rest = paths_matching(s.subrange(1, s.len() as int), term);
        if (s[0].is_file || s[0].is_symlink) && contains(s[0].path@, term) {
            seq![s[0].path@] + rest
        } else {
            rest
        }
    }
}

/// Without recursion, filename mode on a listing never fails and returns
/// exactly the paths of its files and symbolic links that contain the term,
/// each once, in listing order.
pub proof fn lemma_flat_names(cfg: Grabber, term: Seq<u8>, s: Seq<DirEntry>)
    requires
        !cfg.recursive,
    ensures
        names_in_entries(cfg, term, s) == Ok::<Seq<Seq<u8>>, ErrView>(paths_matching(s, term)),
    decreases s.len(),
{
    if s.len() > 0 {
        let rest = s.subrange(1, s.len() as int);
        lemma_flat_names(cfg, term, rest);
        assert(!crate::search::descends(cfg, s[0]));
        if (s[0].is_file || s[0].is_symlink) && contains(s[0].path@, term) {
            assert(names_of_entry(cfg, term, s[0]) == Ok::<Seq<Seq<u8>>, ErrView>(seq![s[0].path@]));
        } else {
            assert(names_of_entry(cfg, term, s[0]) == Ok::<Seq<Seq<u8>>, ErrView>(Seq::empty()));
            assert(Seq::<Seq<u8>>::empty() + paths_matching(rest, term) =~= paths_matching(rest, term));
        }
    }
}

/// Under recursion a directory whose name starts with a dot contributes
/// nothing in either mode, whatever it holds, and cannot fail the walk.
pub proof fn lemma_dot_dirs_skipped(cfg: Grabber, term: Seq<u8>, e: DirEntry)
    requires
        cfg.recursive,
        e.is_dir,
        is_dot_name(e.name@),
    ensures
        names_of_entry(cfg, term, e) == Ok::<Seq<Seq<u8>>, ErrView>(Seq::empty()),
        contents_of_entry(cfg, term, e) == Ok::<Seq<MatchView>, ErrView>(Seq::empty()),
{
}

/// A file none of whose lines contains the term yields no records.
pub proof fn lemma_no_match_no_records(path: Seq<u8>, lines: Seq<Seq<u8>>, term: Seq<u8>)
    requires
        forall|i: int| 0 <= i < lines.len() ==> !contains(#[trigger] lines[i], term),
    ensures
        file_hits(path, lines, term) == Seq::<MatchView>::empty(),
{
    lemma_no_match_upto(path, lines, term, lines.len() as int);
}

proof fn lemma_no_match_upto(path: Seq<u8>, lines: Seq<Seq<u8>>, term: Seq<u8>, n: int)
    requires
        n <= lines.len(),
        forall|i: int| 0 <= i < lines.len() ==> !contains(#[trigger] lines[i], term),
    ensures
        lines_hits(path, lines, term, n) == Seq::<MatchView>::empty(),
    decreases n,
{
    if n > 0 {
        lemma_no_match_upto(path, lines, term, n - 1);
        lemma_first_occurrence(lines[n - 1], term);
        assert(lines_hits(path, lines, term, n) =~= Seq::<MatchView>::empty());
    }
}

/// An entry that yields nothing and does not fail (a file that could not be
/// opened, one without a match, a skipped directory) leaves the rest of its
/// directory's results as they would be without it.
pub proof fn lemma_neutral_entry(cfg: Grabber, term: Seq<u8>, pre: Seq<DirEntry>, e: DirEntry, post: Seq<DirEntry>)
    requires
        contents_of_entry(cfg, term, e) == Ok::<Seq<MatchView>, ErrView>(Seq::empty()),
    ensures
        contents_in_entries(cfg, term, pre + seq![e] + post) == contents_in_entries(cfg, term, pre + post),
    decreases pre.len(),
{
    let s = pre + seq![e] + post;
    if pre.len() == 0 {
        assert(s.subrange(1, s.len() as int) =~= post);
        assert(pre + post =~= post);
        if let Ok(t) = contents_in_entries(cfg, term, post) {
            assert(Seq::<MatchView>::empty() + t =~= t);
        }
    } else {
        let rest = pre.subrange(1, pre.len() as int);
        lemma_neutral_entry(cfg, term, rest, e, post);
        assert(s[0] == pre[0]);
        assert(s.subrange(1, s.len() as int) =~= rest + seq![e] + post);
        assert((pre + post)[0] == pre[0]);
        assert((pre + post).subrange(1, (pre + post).len() as int) =~= rest + post);
    }
}

/// A file that could not be opened is skipped: it yields nothing, and the
/// other entries of its directory are searched as if it were not there.
pub proof fn lemma_unopenable_skipped(cfg: Grabber, term: Seq<u8>, pre: Seq<DirEntry>, e: DirEntry, post: Seq<DirEntry>)
    requires
        e.contents is Unopenable,
    ensures
        contents_of_entry(cfg, term, e) == Ok::<Seq<MatchView>, ErrView>(Seq::empty()),
        contents_in_entries(cfg, term, pre + seq![e] + post) == contents_in_entries(cfg, term, pre + post),
{
    lemma_neutral_entry(cfg, term, pre, e, post);
}

/// Every record of a file points at a line of it that holds the term at the
/// reported column, and at no earlier byte of that line.
pub proof fn lemma_records_point_at_term(path: Seq<u8>, lines: Seq<Seq<u8>>, term: Seq<u8>)
    ensures
        forall|k: int| 0 <= k < file_hits(path, lines, term).len() ==> {
            let m = #[trigger] file_hits(path, lines, term)[k];
            &&& m.path == path
            &&& 1 <= m.line <= lines.len()
            &&& m.text == lines[m.line - 1]
            &&& occurs_at(m.text, term, m.column - 1)
            &&& forall|j: int| 0 <= j < m.column - 1 ==> !occurs_at(m.text, term, j)
        },
{
    lemma_records_upto(path, lines, term, lines.len() as int);
}

proof fn lemma_records_upto(path: Seq<u8>, lines: Seq<Seq<u8>>, term: Seq<u8>, n: int)
    requires
        n <= lines.len(),
    ensures
        forall|k: int| 0 <= k < lines_hits(path, lines, term, n).len() ==> {
            let m = #[trigger] lines_hits(path, lines, term, n)[k];
            &&& m.path == path
            &&& 1 <= m.line <= n
            &&& m.text == lines[m.line - 1]
            &&& occurs_at(m.text, term, m.column - 1)
            &&& forall|j: int| 0 <= j < m.column - 1 ==> !occurs_at(m.text, term, j)
        },
    decreases n,
{
    if n > 0 {
        lemma_records_upto(path, lines, term, n - 1);
        lemma_first_occurrence(lines[n - 1], term);
        let prev = lines_hits(path, lines, term, n - 1);
        let all = lines_hits(path, lines, term, n);
        assert forall|k: int| 0 <= k < all.len() implies {
            let m = #[trigger] all[k];
            &&& m.path == path
            &&& 1 <= m.line <= n
            &&& m.text == lines[m.line - 1]
            &&& occurs_at(m.text, term, m.column - 1)
            &&& forall|j: int| 0 <= j < m.column - 1 ==> !occurs_at(m.text, term, j)
        } by {
            if k < prev.len() {
                assert(all[k] == prev[k]);
            }
        }
    }
}

/// Every record holds the term at its column, on a line numbered from 1.
pub open spec fn records_hold_term(ms: Seq<MatchView>, term: Seq<u8>) -> bool {
    forall|k: int|
        0 <= k < ms.len() ==> #[trigger] ms[k].line >= 1 && occurs_at(ms[k].text, term, ms[k].column - 1)
}

pub open spec fn found_records_hold_term(r: Result<Seq<MatchView>, ErrView>, term: Seq<u8>) -> bool {
    match r {
        Ok(ms) => records_hold_term(ms, term),
        Err(_) => true,
    }
}

/// Every path contains the term.
pub open spec fn paths_hold_term(ps: Seq<Seq<u8>>, term: Seq<u8>) -> bool {
    forall|k: int| 0 <= k < ps.len() ==> contains(#[trigger] ps[k], term)
}

pub open spec fn found_paths_hold_term(r: Result<Seq<Seq<u8>>, ErrView>, term: Seq<u8>) -> bool {
    match r {
        Ok(ps) => paths_hold_term(ps, term),
        Err(_) => true,
    }
}

/// Content mode, at any depth: every record's line holds the term at the
/// reported column.
pub proof fn lemma_listing_records_hold_term(cfg: Grabber, term: Seq<u8>, l: DirListing)
    ensures
        found_records_hold_term(contents_in_listing(cfg, term, l), term),
    decreases l,
{
    if let DirListing::Entries(v) = l {
        lemma_entries_records_hold_term(cfg, term, v@);
    }
}

proof fn lemma_entries_records_hold_term(cfg: Grabber, term: Seq<u8>, s: Seq<DirEntry>)
    ensures
        found_records_hold_term(contents_in_entries(cfg, term, s), term),
    decreases s,
{
    if s.len() > 0 {
        lemma_entry_records_hold_term(cfg, term, s[0]);
        lemma_entries_records_hold_term(cfg, term, s.subrange(1, s.len() as int));
        if let Ok(h) = contents_of_entry(cfg, term, s[0]) {
            if let Ok(t) = contents_in_entries(cfg, term, s.subrange(1, s.len() as int)) {
                assert forall|k: int| 0 <= k < (h + t).len() implies #[trigger] (h + t)[k].line >= 1
                    && occurs_at((h + t)[k].text, term, (h + t)[k].column - 1) by {
                    if k < h.len() {
                        assert((h + t)[k] == h[k]);
                    } else {
                        assert((h + t)[k] == t[k - h.len()]);
                    }
                }
            }
        }
    }
}

proof fn lemma_entry_records_hold_term(cfg: Grabber, term: Seq<u8>, e: DirEntry)
    ensures
        found_records_hold_term(contents_of_entry(cfg, term, e), term),
    decreases e,
{
    if crate::search::descends(cfg, e) {
        if let EntryContents::Listing(l) = e.contents {
            lemma_listing_records_hold_term(cfg, term, l);
        }
    } else if crate::search::content_candidate(cfg, e) {
        if let EntryContents::Lines(ls) = e.contents {
            let lines = crate::search::bytes_seq(ls@);
            lemma_records_point_at_term(e.path@, lines, term);
            assert(records_hold_term(file_hits(e.path@, lines, term), term));
        }
    }
}

/// Filename mode, at any depth: every reported path contains the term.
pub proof fn lemma_listing_paths_hold_term(cfg: Grabber, term: Seq<u8>, l: DirListing)
    ensures
        found_paths_hold_term(names_in_listing(cfg, term, l), term),
    decreases l,
{
    if let DirListing::Entries(v) = l {
        lemma_entries_paths_hold_term(cfg, term, v@);
    }
}

proof fn lemma_entries_paths_hold_term(cfg: Grabber, term: Seq<u8>, s: Seq<DirEntry>)
    ensures
        found_paths_hold_term(names_in_entries(cfg, term, s), term),
    decreases s,
{
    if s.len() > 0 {
        lemma_entry_paths_hold_term(cfg, term, s[0]);
        lemma_entries_paths_hold_term(cfg, term, s.subrange(1, s.len() as int));
        if let Ok(h) = names_of_entry(cfg, term, s[0]) {
            if let Ok(t) = names_in_entries(cfg, term, s.subrange(1, s.len() as int)) {
                assert forall|k: int| 0 <= k < (h + t).len() implies contains(
                    #[trigger] (h + t)[k],
                    term,
                ) by {
                    if k < h.len() {
                        assert((h + t)[k] == h[k]);
                    } else {
                        assert((h + t)[k] == t[k - h.len()]);
                    }
                }
            }
        }
    }
}

proof fn lemma_entry_paths_hold_term(cfg: Grabber, term: Seq<u8>, e: DirEntry)
    ensures
        found_paths_hold_term(names_of_entry(cfg, term, e), term),
    decreases e,
{
    if crate::search::descends(cfg, e) {
        if let EntryContents::Listing(l) = e.contents {
            lemma_listing_paths_hold_term(cfg, term, l);
        }
    }
}

} // verus!
