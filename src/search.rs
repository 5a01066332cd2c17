//! The search engine: a depth-first walk over directory listings, matching
//! either the rendered paths of files or the lines inside them.

use vstd::prelude::*;
use crate::text::{contains, contains_bytes, find_first, first_occurrence, lemma_first_occurrence};

verus! {

/// What a search matches the term against.
pub enum GrabberSearchTypes {
    FileNames,
    FContents,
}

impl Default for GrabberSearchTypes {
    fn default() -> (r: Self)
        ensures
            r is FContents,
    {
        GrabberSearchTypes::FContents
    }
}

/// The configuration of a search run.
pub struct Grabber {
    pub search_type: GrabberSearchTypes,
    pub recursive: bool,
    pub numbered: bool,
    pub verbose: bool,
}

impl Default for Grabber {
    fn default() -> (r: Self)
        ensures
            r.search_type is FContents,
            !r.recursive,
            !r.numbered,
            !r.verbose,
    {
        Grabber {
            search_type: GrabberSearchTypes::FContents,
            recursive: false,
            numbered: false,
            verbose: false,
        }
    }
}

/// A directory that could not be listed: its path and the cause, as text.
pub struct FsError {
    pub path: Vec<u8>,
    pub cause: Vec<u8>,
}

impl View for FsError {
    type V = (Seq<u8>, Seq<u8>);

    open spec fn view(&self) -> (Seq<u8>, Seq<u8>) {
        (self.path@, self.cause@)
    }
}

/// One entry of a directory listing, with what was learnt of it on its visit.
pub struct DirEntry {
    /// The path as displayed.
    pub path: Vec<u8>,
    /// The last component of the path.
    pub name: Vec<u8>,
    /// A directory, following symbolic links.
    pub is_dir: bool,
    /// A regular file, following symbolic links.
    pub is_file: bool,
    /// A symbolic link itself.
    pub is_symlink: bool,
    pub contents: EntryContents,
}

/// What was read below an entry.
pub enum EntryContents {
    /// Nothing was read.
    NotLoaded,
    /// The listing of a directory.
    Listing(DirListing),
    /// The lines of a file, without terminators, up to its end or to the
    /// first line that could not be read.
    Lines(Vec<Vec<u8>>),
    /// The file could not be opened.
    Unopenable,
}

/// The immediate entries of a directory, in the order they are visited, or
/// the failure to list it.
pub enum DirListing {
    Entries(Vec<DirEntry>),
    Failed(FsError),
}

/// One matching line of a file.
pub struct FileSearchResult {
    pub file_path: Vec<u8>,
    /// Line number and column number, both counted from 1; the column is the
    /// byte offset of the match plus one.
    pub position: (usize, usize),
    /// The whole line.
    pub context: Vec<u8>,
}

/// The mathematical value of a `FileSearchResult`.
pub struct MatchView {
    pub path: Seq<u8>,
    pub line: int,
    pub column: int,
    pub text: Seq<u8>,
}

impl View for FileSearchResult {
    type V = MatchView;

    open spec fn view(&self) -> MatchView {
        MatchView {
            path: self.file_path@,
            line: self.position.0 as int,
            column: self.position.1 as int,
            text: self.context@,
        }
    }
}

pub type ErrView = (Seq<u8>, Seq<u8>);

pub open spec fn bytes_seq(v: Seq<Vec<u8>>) -> Seq<Seq<u8>> {
    v.map_values(|x: Vec<u8>| x@)
}

pub open spec fn records_seq(v: Seq<FileSearchResult>) -> Seq<MatchView> {
    v.map_values(|x: FileSearchResult| x@)
}

pub open spec fn names_result(r: Result<Vec<Vec<u8>>, FsError>) -> Result<Seq<Seq<u8>>, ErrView> {
    match r {
        Ok(v) => Ok(bytes_seq(v@)),
        Err(e) => Err(e@),
    }
}

pub open spec fn records_result(r: Result<Vec<FileSearchResult>, FsError>) -> Result<
    Seq<MatchView>,
    ErrView,
> {
    match r {
        Ok(v) => Ok(records_seq(v@)),
        Err(e) => Err(e@),
    }
}

/// `a` followed by the result `r`, or the error of `r`.
pub open spec fn join<T>(a: Seq<T>, r: Result<Seq<T>, ErrView>) -> Result<Seq<T>, ErrView> {
    match r {
        Ok(b) => Ok(a + b),
        Err(e) => Err(e),
    }
}

/// A base name that starts with a dot.
pub open spec fn is_dot_name(name: Seq<u8>) -> bool {
    name.len() > 0 && name[0] == 46u8
}

/// Whether the walk treats the entry as a directory.
pub open spec fn walks_into(cfg: Grabber, e: DirEntry) -> bool {
    cfg.recursive && e.is_dir
}

/// Whether the walk descends into the entry.
pub open spec fn descends(cfg: Grabber, e: DirEntry) -> bool {
    walks_into(cfg, e) && !is_dot_name(e.name@)
}

/// Whether filename mode matches the entry's path.
pub open spec fn name_candidate(cfg: Grabber, e: DirEntry) -> bool {
    !walks_into(cfg, e) && (e.is_file || e.is_symlink)
}

/// Whether content mode opens the entry.
pub open spec fn content_candidate(cfg: Grabber, e: DirEntry) -> bool {
    !walks_into(cfg, e) && e.is_file && !e.is_symlink
}

// ---------------------------------------------------------------- filename mode

/// Filename mode on a listing: the matching paths in visit order, or the
/// first listing failure met.
pub open spec fn names_in_listing(cfg: Grabber, term: Seq<u8>, l: DirListing) -> Result<
    Seq<Seq<u8>>,
    ErrView,
>
    decreases l,
{
    match l {
        DirListing::Failed(e) => Err(e@),
        DirListing::Entries(v) => names_in_entries(cfg, term, v@),
    }
}

pub open spec fn names_in_entries(cfg: Grabber, term: Seq<u8>, s: Seq<DirEntry>) -> Result<
    Seq<Seq<u8>>,
    ErrView,
>
    decreases s,
{
    if s.len() == 0 {
        Ok(Seq::empty())
    } else {
        match names_of_entry(cfg, term, s[0]) {
            Err(e) => Err(e),
            Ok(h) => join(h, names_in_entries(cfg, term, s.subrange(1, s.len() as int))),
        }
    }
}

pub open spec fn names_of_entry(cfg: Grabber, term: Seq<u8>, e: DirEntry) -> Result<
    Seq<Seq<u8>>,
    ErrView,
>
    decreases e,
{
    if descends(cfg, e) {
        match e.contents {
            EntryContents::Listing(l) => names_in_listing(cfg, term, l),
            _ => Ok(Seq::empty()),
        }
    } else if name_candidate(cfg, e) && contains(e.path@, term) {
        Ok(seq![e.path@])
    } else {
        Ok(Seq::empty())
    }
}

// ---------------------------------------------------------------- content mode

/// The record for line number `n` (from 1) of a file, if `term` occurs in it:
/// its first occurrence only.
pub open spec fn line_hit(path: Seq<u8>, n: int, line: Seq<u8>, term: Seq<u8>) -> Seq<MatchView> {
    match first_occurrence(line, term) {
        Some(c) => seq![MatchView { path, line: n, column: c + 1, text: line }],
        None => Seq::empty(),
    }
}

/// The records of the first `n` lines of a file, in line order.
pub open spec fn lines_hits(path: Seq<u8>, lines: Seq<Seq<u8>>, term: Seq<u8>, n: int) -> Seq<
    MatchView,
>
    decreases n,
{
    if n <= 0 {
        Seq::empty()
    } else {
        lines_hits(path, lines, term, n - 1) + line_hit(path, n, lines[n - 1], term)
    }
}

/// The records of all the lines of a file.
pub open spec fn file_hits(path: Seq<u8>, lines: Seq<Seq<u8>>, term: Seq<u8>) -> Seq<MatchView> {
    lines_hits(path, lines, term, lines.len() as int)
}

/// Content mode on a listing: the matching lines in visit order, or the first
/// listing failure met.
pub open spec fn contents_in_listing(cfg: Grabber, term: Seq<u8>, l: DirListing) -> Result<
    Seq<MatchView>,
    ErrView,
>
    decreases l,
{
    match l {
        DirListing::Failed(e) => Err(e@),
        DirListing::Entries(v) => contents_in_entries(cfg, term, v@),
    }
}

pub open spec fn contents_in_entries(cfg: Grabber, term: Seq<u8>, s: Seq<DirEntry>) -> Result<
    Seq<MatchView>,
    ErrView,
>
    decreases s,
{
    if s.len() == 0 {
        Ok(Seq::empty())
    } else {
        match contents_of_entry(cfg, term, s[0]) {
            Err(e) => Err(e),
            Ok(h) => join(h, contents_in_entries(cfg, term, s.subrange(1, s.len() as int))),
        }
    }
}

pub open spec fn contents_of_entry(cfg: Grabber, term: Seq<u8>, e: DirEntry) -> Result<
    Seq<MatchView>,
    ErrView,
>
    decreases e,
{
    if descends(cfg, e) {
        match e.contents {
            EntryContents::Listing(l) => contents_in_listing(cfg, term, l),
            _ => Ok(Seq::empty()),
        }
    } else if content_candidate(cfg, e) {
        match e.contents {
            EntryContents::Lines(ls) => Ok(file_hits(e.path@, bytes_seq(ls@), term)),
            _ => Ok(Seq::empty()),
        }
    } else {
        Ok(Seq::empty())
    }
}

fn copy_bytes(b: &Vec<u8>) -> (r: Vec<u8>)
    ensures
        r@ == b@,
{
    let mut r: Vec<u8> = Vec::new();
    let mut i: usize = 0;
    while i < b.len()
        invariant
            i <= b.len(),
            r@ == b@.subrange(0, i as int),
        decreases b.len() - i,
    {
        r.push(b[i]);
        i = i + 1;
        assert(r@ =~= b@.subrange(0, i as int));
    }
    assert(b@.subrange(0, b.len() as int) =~= b@);
    r
}

impl FsError {
    /// A copy of the error.
    pub fn copy(&self) -> (r: FsError)
        ensures
            r@ == self@,
    {
        FsError { path: copy_bytes(&self.path), cause: copy_bytes(&self.cause) }
    }
}

proof fn lemma_join_assoc<T>(a: Seq<T>, b: Seq<T>, r: Result<Seq<T>, ErrView>)
    ensures
        join(a, join(b, r)) == join(a + b, r),
{
    if let Ok(c) = r {
        assert(a + (b + c) =~= a + b + c);
    }
}

proof fn lemma_bytes_seq_append(a: Seq<Vec<u8>>, b: Seq<Vec<u8>>)
    ensures
        bytes_seq(a + b) == bytes_seq(a) + bytes_seq(b),
{
    assert(bytes_seq(a + b) =~= bytes_seq(a) + bytes_seq(b));
}

proof fn lemma_records_seq_append(a: Seq<FileSearchResult>, b: Seq<FileSearchResult>)
    ensures
        records_seq(a + b) == records_seq(a) + records_seq(b),
{
    assert(records_seq(a + b) =~= records_seq(a) + records_seq(b));
}

impl Grabber {
    /// Whether the walk descends into the entry.
    pub fn descends_into(&self, e: &DirEntry) -> (r: bool)
        ensures
            r == descends(*self, *e),
    {
        self.recursive && e.is_dir && !(e.name.len() > 0 && e.name[0] == 46u8)
    }

    /// Whether content mode reads the lines of the entry: a regular file, not
    /// a symbolic link, that the walk does not treat as a directory.
    pub fn opens_contents(&self, e: &DirEntry) -> (r: bool)
        ensures
            r == content_candidate(*self, *e),
    {
        !(self.recursive && e.is_dir) && e.is_file && !e.is_symlink
    }

    /// Filename mode: the rendered paths of the files and symbolic links below
    /// `dir` that contain `search`, in visit order, or the first listing failure.
    pub fn search_file_names_in_dir(&self, search: &[u8], dir: &DirListing) -> (r: Result<
        Vec<Vec<u8>>,
        FsError,
    >)
        ensures
            names_result(r) == names_in_listing(*self, search@, *dir),
        decreases dir,
    {
        match dir {
            DirListing::Failed(e) => Err(e.copy()),
            DirListing::Entries(v) => self.names_in_entries(search, v),
        }
    }

    fn names_in_entries(&self, search: &[u8], v: &Vec<DirEntry>) -> (r: Result<
        Vec<Vec<u8>>,
        FsError,
    >)
        ensures
            names_result(r) == names_in_entries(*self, search@, v@),
        decreases v,
    {
        let mut out: Vec<Vec<u8>> = Vec::new();
        let mut i: usize = 0;
        assert(v@.subrange(0, v@.len() as int) =~= v@);
        while i < v.len()
            invariant
                i <= v.len(),
                names_in_entries(*self, search@, v@) == join(
                    bytes_seq(out@),
                    names_in_entries(*self, search@, v@.subrange(i as int, v@.len() as int)),
                ),
            decreases v.len() - i,
        {
            let ghost rest = v@.subrange(i as int, v@.len() as int);
            assert(rest[0] == v@[i as int]);
            assert(rest.subrange(1, rest.len() as int) =~= v@.subrange(i + 1, v@.len() as int));
            match self.names_of_entry(search, &v[i]) {
                Err(e) => {
                    return Err(e);
                },
                Ok(mut h) => {
                    proof {
                        lemma_bytes_seq_append(out@, h@);
                        lemma_join_assoc(
                            bytes_seq(out@),
                            bytes_seq(h@),
                            names_in_entries(*self, search@, v@.subrange(i + 1, v@.len() as int)),
                        );
                    }
                    out.append(&mut h);
                },
            }
            i = i + 1;
        }
        assert(bytes_seq(out@) + Seq::<Seq<u8>>::empty() =~= bytes_seq(out@));
        Ok(out)
    }

    fn names_of_entry(&self, search: &[u8], e: &DirEntry) -> (r: Result<Vec<Vec<u8>>, FsError>)
        ensures
            names_result(r) == names_of_entry(*self, search@, *e),
        decreases e,
    {
        let mut out: Vec<Vec<u8>> = Vec::new();
        assert(bytes_seq(out@) =~= Seq::<Seq<u8>>::empty());
        if self.descends_into(e) {
            match &e.contents {
                EntryContents::Listing(l) => {
                    return self.search_file_names_in_dir(search, l);
                },
                _ => {},
            }
        } else if !(self.recursive && e.is_dir) && (e.is_file || e.is_symlink) && contains_bytes(
            e.path.as_slice(),
            search,
        ) {
            out.push(copy_bytes(&e.path));
            assert(bytes_seq(out@) =~= seq![e.path@]);
        }
        Ok(out)
    }
}

/// The matching lines of one file, given its path and its lines: for each
/// line that contains `search`, a record of its first occurrence.
pub fn scan_lines(path: &Vec<u8>, lines: &Vec<Vec<u8>>, search: &[u8]) -> (r: Vec<
    FileSearchResult,
>)
    ensures
        records_seq(r@) == file_hits(path@, bytes_seq(lines@), search@),
{
    let mut out: Vec<FileSearchResult> = Vec::new();
    let mut i: usize = 0;
    assert(records_seq(out@) =~= Seq::<MatchView>::empty());
    while i < lines.len()
        invariant
            i <= lines.len(),
            records_seq(out@) == lines_hits(path@, bytes_seq(lines@), search@, i as int),
        decreases lines.len() - i,
    {
        let line = &lines[i];
        let found = find_first(line.as_slice(), search);
        proof {
            lemma_first_occurrence(line@, search@);
        }
        match found {
            Some(c) => {
                assert(crate::text::occurs_at(line@, search@, c as int));
                if search.len() == 0 {
                    assert(line@.subrange(0, 0) =~= search@);
                    assert(c == 0);
                } else {
                    assert(c + search@.len() <= line@.len());
                    assert(c < line.len());
                }
                let rec = FileSearchResult {
                    file_path: copy_bytes(path),
                    position: (i + 1, c + 1),
                    context: copy_bytes(line),
                };
                out.push(rec);
                assert(records_seq(out@) =~= lines_hits(
                    path@,
                    bytes_seq(lines@),
                    search@,
                    i as int,
                ) + line_hit(path@, i + 1, line@, search@));
            },
            None => {
                assert(lines_hits(path@, bytes_seq(lines@), search@, i as int) + line_hit(
                    path@,
                    i + 1,
                    line@,
                    search@,
                ) =~= lines_hits(path@, bytes_seq(lines@), search@, i as int));
            },
        }
        i = i + 1;
    }
    out
}

impl Grabber {
    /// Content mode: for each regular file below `dir` that is opened, the
    /// records of its matching lines, in visit order, or the first listing
    /// failure.
    pub fn search_file_contents_in_dir(&self, search: &[u8], dir: &DirListing) -> (r: Result<
        Vec<FileSearchResult>,
        FsError,
    >)
        ensures
            records_result(r) == contents_in_listing(*self, search@, *dir),
        decreases dir,
    {
        match dir {
            DirListing::Failed(e) => Err(e.copy()),
            DirListing::Entries(v) => self.contents_in_entries(search, v),
        }
    }

    fn contents_in_entries(&self, search: &[u8], v: &Vec<DirEntry>) -> (r: Result<
        Vec<FileSearchResult>,
        FsError,
    >)
        ensures
            records_result(r) == contents_in_entries(*self, search@, v@),
        decreases v,
    {
        let mut out: Vec<FileSearchResult> = Vec::new();
        let mut i: usize = 0;
        assert(v@.subrange(0, v@.len() as int) =~= v@);
        while i < v.len()
            invariant
                i <= v.len(),
                contents_in_entries(*self, search@, v@) == join(
                    records_seq(out@),
                    contents_in_entries(*self, search@, v@.subrange(i as int, v@.len() as int)),
                ),
            decreases v.len() - i,
        {
            let ghost rest = v@.subrange(i as int, v@.len() as int);
            assert(rest[0] == v@[i as int]);
            assert(rest.subrange(1, rest.len() as int) =~= v@.subrange(i + 1, v@.len() as int));
            match self.contents_of_entry(search, &v[i]) {
                Err(e) => {
                    return Err(e);
                },
                Ok(mut h) => {
                    proof {
                        lemma_records_seq_append(out@, h@);
                        lemma_join_assoc(
                            records_seq(out@),
                            records_seq(h@),
                            contents_in_entries(*self, search@, v@.subrange(i + 1, v@.len() as int)),
                        );
                    }
                    out.append(&mut h);
                },
            }
            i = i + 1;
        }
        assert(records_seq(out@) + Seq::<MatchView>::empty() =~= records_seq(out@));
        Ok(out)
    }

    fn contents_of_entry(&self, search: &[u8], e: &DirEntry) -> (r: Result<
        Vec<FileSearchResult>,
        FsError,
    >)
        ensures
            records_result(r) == contents_of_entry(*self, search@, *e),
        decreases e,
    {
        let empty: Vec<FileSearchResult> = Vec::new();
        assert(records_seq(empty@) =~= Seq::<MatchView>::empty());
        if self.descends_into(e) {
            match &e.contents {
                EntryContents::Listing(l) => self.search_file_contents_in_dir(search, l),
                _ => Ok(empty),
            }
        } else if self.opens_contents(e) {
            match &e.contents {
                EntryContents::Lines(ls) => Ok(scan_lines(&e.path, ls, search)),
                _ => Ok(empty),
            }
        } else {
            Ok(empty)
        }
    }
}

} // verus!
