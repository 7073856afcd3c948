//! Source text bookkeeping: files, their line structure, and locations.
//!
//! A source file owns its text and an index of line ranges, so that a
//! character offset can be mapped to a line and column when a diagnostic
//! is rendered. Offsets here count characters.

use vstd::prelude::*;

verus! {

/// Identifies a loaded source file.
pub type FileId = u64;

/// Where a piece of source text came from.
#[derive(Clone, Debug, PartialEq)]
pub enum SourceOrigin {
    /// Bare text, as in tests.
    Text,
    /// A file, by id and name.
    File(FileId, String),
}

/// A point in some text: a line and a column, both counted from zero.
#[derive(Clone, Debug, Copy, PartialEq, Eq, Structural, Default)]
pub struct Location {
    pub line: usize,
    pub col: usize,
}

impl Location {
    pub fn new(line: usize, col: usize) -> (r: Self)
        ensures
            r.line == line,
            r.col == col,
    {
        Location { line, col }
    }
}

/// A span in some text: where it starts and how long it is.
#[derive(Clone, Debug, Copy, PartialEq, Eq, Structural, Default)]
pub struct SourceSpan {
    pub location: Location,
    pub len: usize,
}

impl SourceSpan {
    pub fn new(line: usize, col: usize, len: usize) -> (r: Self)
        ensures
            r.location.line == line,
            r.location.col == col,
            r.len == len,
    {
        SourceSpan { location: Location::new(line, col), len }
    }
}

/// A span of text within a particular source.
#[derive(Clone, Debug, PartialEq)]
pub struct FileSpan {
    pub origin: SourceOrigin,
    pub span: SourceSpan,
}

impl FileSpan {
    pub fn new(origin: SourceOrigin, line: usize, col: usize, len: usize) -> (r: Self)
        ensures
            r.origin == origin,
            r.span.location.line == line,
            r.span.location.col == col,
            r.span.len == len,
    {
        FileSpan { origin, span: SourceSpan::new(line, col, len) }
    }
}

/// The line structure of a text: for each line, the half-open character
/// range it covers. Line boundaries sit at the newline characters; the
/// ranges tile the text.
#[derive(Clone, Debug)]
pub struct Lines {
    pub offsets: Vec<(usize, usize)>,
}

impl Lines {
    /// The ranges are ordered, non-empty-structured and within `len`:
    /// the first starts at zero, each next one starts where the previous
    /// ended.
    pub open spec fn wf(&self, len: int) -> bool {
        &&& self.offsets@.len() >= 1
        &&& self.offsets@[0].0 == 0
        &&& self.offsets@[self.offsets@.len() - 1].1 == len
        &&& forall|i: int|
            0 <= i < self.offsets@.len() ==> (#[trigger] self.offsets@[i]).0 <= self.offsets@[i].1
                <= len
        &&& forall|i: int|
            0 < i < self.offsets@.len() ==> (#[trigger] self.offsets@[i]).0 == self.offsets@[i
                - 1].1
    }

    /// Indexes the lines of `text`: boundaries fall at each newline
    /// character and at the ends of the text.
    pub fn new(text: &str) -> (r: Self)
        requires
            text@.len() <= usize::MAX,
        ensures
            r.wf(text@.len() as int),
    {
        let n = text.unicode_len();
        let mut offsets: Vec<(usize, usize)> = Vec::new();
        let mut start: usize = 0;
        let mut i: usize = 0;
        while i < n
            invariant
                n == text@.len(),
                i <= n,
                start <= i,
                offsets@.len() == 0 ==> start == 0,
                offsets@.len() >= 1 ==> offsets@[0].0 == 0 && offsets@[offsets@.len() - 1].1
                    == start,
                forall|k: int|
                    0 <= k < offsets@.len() ==> (#[trigger] offsets@[k]).0 <= offsets@[k].1 <= n,
                forall|k: int|
                    0 < k < offsets@.len() ==> (#[trigger] offsets@[k]).0 == offsets@[k - 1].1,
            decreases n - i,
        {
            let c = text.get_char(i);
            if c == '\n' {
                offsets.push((start, i));
                start = i;
            }
            i = i + 1;
        }
        offsets.push((start, n));
        Lines { offsets }
    }

    /// The line and column of a character offset, if the offset falls
    /// inside some line's range.
    pub fn get_location_from_offset(&self, offset: usize) -> (r: Option<Location>)
        ensures
            match r {
                Some(loc) => {
                    &&& loc.line < self.offsets@.len()
                    &&& self.offsets@[loc.line as int].0 <= offset < self.offsets@[
                        loc.line as int
                    ].1
                    &&& loc.col == offset - self.offsets@[loc.line as int].0
                },
                None => forall|i: int|
                    0 <= i < self.offsets@.len() ==> !((#[trigger] self.offsets@[i]).0 <= offset
                        < self.offsets@[i].1),
            },
    {
        let mut i: usize = 0;
        while i < self.offsets.len()
            invariant
                forall|k: int|
                    0 <= k < i ==> !((#[trigger] self.offsets@[k]).0 <= offset < self.offsets@[
                        k
                    ].1),
                i <= self.offsets@.len(),
            decreases self.offsets@.len() - i,
        {
            let (s, e) = self.offsets[i];
            if s <= offset && offset < e {
                return Some(Location::new(i, offset - s));
            }
            i = i + 1;
        }
        None
    }

    /// The character range of a line, if there is such a line.
    pub fn get_line_range(&self, line: usize) -> (r: Option<(usize, usize)>)
        ensures
            match r {
                Some(range) => line < self.offsets@.len() && range == self.offsets@[line as int],
                None => line >= self.offsets@.len(),
            },
    {
        if line < self.offsets.len() {
            Some(self.offsets[line])
        } else {
            None
        }
    }
}

/// A source file: where it came from, its text, and its line index.
#[derive(Clone, Debug)]
pub struct SourceFile {
    pub origin: SourceOrigin,
    pub text: String,
    pub lines: Lines,
}

impl SourceFile {
    /// The file's line index describes its text.
    pub open spec fn wf(&self) -> bool {
        self.lines.wf(self.text@.len() as int)
    }

    pub fn new(text: String, origin: SourceOrigin) -> (r: Self)
        requires
            text@.len() <= usize::MAX,
        ensures
            r.origin == origin,
            r.text@ == text@,
            r.wf(),
    {
        let lines = Lines::new(text.as_str());
        SourceFile { origin, text, lines }
    }

    /// The text of one line, without interpretation.
    pub fn get_line(&self, line: usize) -> (r: Option<&str>)
        requires
            self.wf(),
        ensures
            match r {
                Some(s) => line < self.lines.offsets@.len() && s@ == self.text@.subrange(
                    self.lines.offsets@[line as int].0 as int,
                    self.lines.offsets@[line as int].1 as int,
                ),
                None => line >= self.lines.offsets@.len(),
            },
    {
        match self.lines.get_line_range(line) {
            Some((s, e)) => Some(self.text.as_str().substring_char(s, e)),
            None => None,
        }
    }

    /// The line and column of a character offset: the line whose range
    /// holds the offset, and the offset's distance from that line's start.
    pub fn get_location_from_offset(&self, offset: usize) -> (r: Option<Location>)
        ensures
            match r {
                Some(loc) => {
                    &&& loc.line < self.lines.offsets@.len()
                    &&& self.lines.offsets@[loc.line as int].0 <= offset < self.lines.offsets@[
                        loc.line as int
                    ].1
                    &&& loc.col == offset - self.lines.offsets@[loc.line as int].0
                },
                None => forall|i: int|
                    0 <= i < self.lines.offsets@.len() ==> !((#[trigger] self.lines.offsets@[
                        i
                    ]).0 <= offset < self.lines.offsets@[i].1),
            },
    {
        self.lines.get_location_from_offset(offset)
    }

    /// The text covered by a character range, if it lies inside the text.
    pub fn get_text(&self, start: usize, len: usize) -> (r: Option<&str>)
        ensures
            match r {
                Some(s) => start + len <= self.text@.len() && s@ == self.text@.subrange(
                    start as int,
                    start + len,
                ),
                None => start + len > self.text@.len(),
            },
    {
        let n = self.text.as_str().unicode_len();
        if start <= n && len <= n - start {
            Some(self.text.as_str().substring_char(start, start + len))
        } else {
            None
        }
    }
}

/// What can go wrong around loading and finding sources.
#[derive(Clone, Debug, PartialEq)]
pub enum SourcesError {
    NoSourceFile,
    IllegalSourceId,
    SourceIsAlreadyInDatabase,
    NotInSearchPath,
    AlreadyInSearchPath,
}

/// An ordered collection of search paths, each held once.
pub struct PathSearcher {
    pub paths: Vec<String>,
}

impl PathSearcher {
    /// The paths this searcher holds, in order.
    pub open spec fn view(&self) -> Seq<Seq<char>> {
        self.paths@.map_values(|p: String| p@)
    }

    pub fn new() -> (r: Self)
        ensures
            r@.len() == 0,
    {
        PathSearcher { paths: Vec::new() }
    }

    /// Adds a path; a path already present is refused and nothing changes.
    pub fn add_path(&mut self, p: &str) -> (r: Result<(), SourcesError>)
        ensures
            match r {
                Ok(()) => !old(self)@.contains(p@) && final(self)@ == old(self)@.push(p@),
                Err(e) => e == SourcesError::AlreadyInSearchPath && old(self)@.contains(p@)
                    && final(self)@ == old(self)@,
            },
    {
        let mut i: usize = 0;
        while i < self.paths.len()
            invariant
                i <= self.paths@.len(),
                forall|k: int| 0 <= k < i ==> (#[trigger] self.paths@[k])@ != p@,
            decreases self.paths@.len() - i,
        {
            if crate::parsers::str_eq(self.paths[i].as_str(), p) {
                proof {
                    assert(self@[i as int] == self.paths@[i as int]@);
                }
                return Err(SourcesError::AlreadyInSearchPath);
            }
            i = i + 1;
        }
        proof {
            assert(forall|k: int| 0 <= k < self.paths@.len() ==> self@[k] == (#[trigger] self.paths@[k])@);
        }
        self.paths.push(p.to_owned());
        proof {
            assert(self@ =~= old(self)@.push(p@));
        }
        Ok(())
    }

    /// Removes a path; one not present is refused and nothing changes.
    pub fn remove_path(&mut self, p: &str) -> (r: Result<(), SourcesError>)
        ensures
            match r {
                Ok(()) => exists|k: int|
                    0 <= k < old(self)@.len() && old(self)@[k] == p@ && final(self)@ == old(
                        self,
                    )@.remove(k),
                Err(e) => e == SourcesError::NotInSearchPath && !old(self)@.contains(p@)
                    && final(self)@ == old(self)@,
            },
    {
        let mut i: usize = 0;
        while i < self.paths.len()
            invariant
                i <= self.paths@.len(),
                forall|k: int| 0 <= k < i ==> (#[trigger] self.paths@[k])@ != p@,
                self == old(self),
            decreases self.paths@.len() - i,
        {
            if crate::parsers::str_eq(self.paths[i].as_str(), p) {
                proof {
                    assert(self@[i as int] == self.paths@[i as int]@);
                }
                self.paths.remove(i);
                proof {
                    assert(self@ =~= old(self)@.remove(i as int));
                }
                return Ok(());
            }
            i = i + 1;
        }
        proof {
            assert(forall|k: int|
                0 <= k < self@.len() ==> self@[k] == (#[trigger] self.paths@[k])@);
        }
        Err(SourcesError::NotInSearchPath)
    }
}

/// The files one compilation has loaded, each under an id and its name.
pub struct SourceLoader {
    pub names: Vec<String>,
    pub files: Vec<SourceFile>,
}

impl SourceLoader {
    /// One file per name, ids are indices.
    pub open spec fn wf(&self) -> bool {
        &&& self.names@.len() == self.files@.len()
        &&& self.names@.len() <= u64::MAX
        &&& forall|i: int, j: int|
            0 <= i < j < self.names@.len() ==> (#[trigger] self.names@[i])@ != (
            #[trigger] self.names@[j])@
    }

    pub fn new() -> (r: Self)
        ensures
            r.wf(),
            r.names@.len() == 0,
    {
        SourceLoader { names: Vec::new(), files: Vec::new() }
    }

    /// The id a name is filed under, if the file is loaded.
    pub fn get_source_file_id(&self, name: &str) -> (r: Option<FileId>)
        requires
            self.wf(),
        ensures
            match r {
                Some(id) => id < self.names@.len() && self.names@[id as int]@ == name@,
                None => forall|i: int|
                    0 <= i < self.names@.len() ==> (#[trigger] self.names@[i])@ != name@,
            },
    {
        let n = self.names.len();
        let mut i: usize = 0;
        while i < n
            invariant
                self.wf(),
                n == self.names@.len(),
                i <= n,
                forall|k: int| 0 <= k < i ==> (#[trigger] self.names@[k])@ != name@,
            decreases n - i,
        {
            if crate::parsers::str_eq(self.names[i].as_str(), name) {
                return Some(i as u64);
            }
            i = i + 1;
        }
        None
    }

    /// The file under an id.
    pub fn get_source_file(&self, file_id: FileId) -> (r: Option<&SourceFile>)
        requires
            self.wf(),
        ensures
            match r {
                Some(f) => file_id < self.files@.len() && *f == self.files@[file_id as int],
                None => file_id >= self.files@.len(),
            },
    {
        let n = self.files.len();
        if file_id < n as u64 {
            Some(&self.files[file_id as usize])
        } else {
            None
        }
    }

    /// The file under a name.
    pub fn get_source_file_from_name(&self, name: &str) -> (r: Option<&SourceFile>)
        requires
            self.wf(),
        ensures
            r is Some ==> exists|i: int|
                0 <= i < self.names@.len() && (#[trigger] self.names@[i])@ == name@,
    {
        match self.get_source_file_id(name) {
            Some(id) => self.get_source_file(id),
            None => None,
        }
    }

    /// Files a text under a name and returns its id; a name already filed
    /// is refused and nothing changes.
    pub fn add_file(&mut self, name: &str, text: String) -> (r: Result<FileId, SourcesError>)
        requires
            old(self).wf(),
            old(self).names@.len() < u64::MAX,
            text@.len() <= usize::MAX,
        ensures
            final(self).wf(),
            match r {
                Ok(id) => {
                    &&& id == old(self).names@.len()
                    &&& final(self).names@.len() == old(self).names@.len() + 1
                    &&& final(self).names@.last()@ == name@
                },
                Err(e) => e == SourcesError::SourceIsAlreadyInDatabase && *final(self) == *old(
                    self,
                ),
            },
    {
        match self.get_source_file_id(name) {
            Some(_) => Err(SourcesError::SourceIsAlreadyInDatabase),
            None => {
                let id = self.names.len() as u64;
                let origin = SourceOrigin::File(id, name.to_owned());
                let file = SourceFile::new(text, origin);
                self.names.push(name.to_owned());
                self.files.push(file);
                Ok(id)
            },
        }
    }
}

} // verus!
