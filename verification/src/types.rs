//! The values a scan is configured with.

use crate::error::{ErrorView, TalosError, TalosResult};
use crate::paths::{join, path_join};
use crate::sequences::{lemma_filter_empty, lemma_filter_push};
use crate::text::{
    lowercased, same_text, split, split_on, strip_leading, texts, to_ascii_lowercase,
    trim, trim_start_matches, trimmed,
};
use vstd::prelude::*;
use vstd::std_specs::slice::into_iter_elts;

verus! {

/// File extensions, in lower case and without the dot.
#[derive(Debug, Clone)]
pub struct Extensions(Vec<String>);

/// The extension that one piece of a list stands for: the piece without the
/// whitespace around it and without leading dots, in lower case.
pub open spec fn normalized_extension(piece: Seq<char>) -> Seq<char> {
    lowercased(strip_leading(trimmed(piece), '.'))
}

/// The extensions named by a comma-separated list: its pieces, normalized,
/// without those that come out empty.
pub open spec fn listed_extensions(list: Seq<char>) -> Seq<Seq<char>> {
    split_on(list, ',').map_values(|piece: Seq<char>| normalized_extension(piece)).filter(
        |ext: Seq<char>| ext.len() > 0,
    )
}

/// The text of a string slice that may be absent.
pub open spec fn str_of(s: Option<&str>) -> Option<Seq<char>> {
    match s {
        Some(s) => Some(s@),
        None => None,
    }
}

/// The extensions that a scan is configured with: the default ones where no
/// list is given, else those that the list names; none where the list names
/// none.
pub open spec fn configured_extensions(list: Option<Seq<char>>) -> Option<Seq<Seq<char>>> {
    match list {
        None => Some(default_extensions()),
        Some(list) => if listed_extensions(list).len() > 0 {
            Some(listed_extensions(list))
        } else {
            None
        },
    }
}

/// The extensions scanned where none are asked for.
pub open spec fn default_extensions() -> Seq<Seq<char>> {
    seq!["js"@, "jsx"@, "ts"@, "tsx"@, "css"@]
}

impl View for Extensions {
    type V = Seq<Seq<char>>;

    closed spec fn view(&self) -> Seq<Seq<char>> {
        texts(self.0)
    }
}

impl Default for Extensions {
    fn default() -> (e: Extensions)
        ensures
            e@ == default_extensions(),
    {
        let mut list: Vec<String> = Vec::new();
        list.push("js".to_owned());
        list.push("jsx".to_owned());
        list.push("ts".to_owned());
        list.push("tsx".to_owned());
        list.push("css".to_owned());
        assert(texts(list) =~= default_extensions());
        Extensions(list)
    }
}

impl Extensions {
    /// The extensions, in the order they were given.
    pub fn iter(&self) -> (it: std::slice::Iter<'_, String>)
        ensures
            into_iter_elts(it).map_values(|s: String| s@) == self@,
    {
        broadcast use vstd::std_specs::slice::axiom_spec_slice_iter;

        let it = self.0.iter();
        assert(into_iter_elts(it) =~= self.0@);
        it
    }

    /// Whether `ext`, whatever its case, is one of the extensions.
    pub fn contains(&self, ext: &str) -> (r: bool)
        ensures
            r == self@.contains(lowercased(ext@)),
    {
        let wanted = to_ascii_lowercase(ext);
        let mut i: usize = 0;
        while i < self.0.len()
            invariant
                i <= self.0.len(),
                wanted@ == lowercased(ext@),
                forall|k: int| 0 <= k < i ==> texts(self.0)[k] != wanted@,
            decreases self.0.len() - i,
        {
            if same_text(self.0[i].as_str(), wanted.as_str()) {
                assert(texts(self.0)[i as int] == wanted@);
                return true;
            }
            i += 1;
        }
        false
    }

    /// Reads a comma-separated list of extensions. Each piece is trimmed,
    /// loses its leading dots and is put in lower case; empty pieces are
    /// dropped. A list that names no extension is refused.
    pub fn from_str(s: &str) -> (r: Result<Extensions, &'static str>)
        ensures
            match r {
                Ok(exts) => exts@ == listed_extensions(s@) && exts@.len() > 0,
                Err(msg) => listed_extensions(s@).len() == 0 && msg@
                    == "No valid extensions provided"@,
            },
    {
        let pieces = split(s, ',');
        let ghost all = split_on(s@, ',');
        let ghost norm = |piece: Seq<char>| normalized_extension(piece);
        let ghost keep = |ext: Seq<char>| ext.len() > 0;
        let mut exts: Vec<String> = Vec::new();
        proof {
            lemma_filter_empty(keep);
            assert(all.take(0).map_values(norm) =~= Seq::<Seq<char>>::empty());
            assert(texts(exts) =~= Seq::<Seq<char>>::empty());
        }
        for i in 0..pieces.len()
            invariant
                texts(pieces) == all,
                all == split_on(s@, ','),
                norm == |piece: Seq<char>| normalized_extension(piece),
                keep == |ext: Seq<char>| ext.len() > 0,
                texts(exts) == all.take(i as int).map_values(norm).filter(keep),
        {
            let piece = pieces[i].as_str();
            let ext = to_ascii_lowercase(trim_start_matches(trim(piece), '.'));
            proof {
                assert(all[i as int] == pieces[i as int]@);
                assert(ext@ == norm(all[i as int]));
                let done = all.take(i as int).map_values(norm);
                assert(all.take(i + 1).map_values(norm) =~= done.push(ext@));
                lemma_filter_push(done, ext@, keep);
            }
            let ghost before = texts(exts);
            if !ext.as_str().is_empty() {
                exts.push(ext);
                assert(texts(exts) =~= before.push(ext@));
            }
        }
        proof {
            assert(all.take(pieces.len() as int) =~= all);
        }
        if exts.is_empty() {
            Err("No valid extensions provided")
        } else {
            Ok(Extensions(exts))
        }
    }

    /// The extensions of a scan. Where no list is given they are the
    /// default ones; where one is given they are those it names, and a list
    /// that names none is invalid input.
    pub fn configured(list: Option<&str>) -> (r: TalosResult<Extensions>)
        ensures
            match r {
                Ok(exts) => configured_extensions(str_of(list)) == Some(exts@),
                Err(e) => configured_extensions(str_of(list)) is None && e@
                    == ErrorView::InvalidInput("No valid extensions provided"@),
            },
    {
        match list {
            None => Ok(Extensions::default()),
            Some(list) => match Extensions::from_str(list) {
                Ok(exts) => Ok(exts),
                Err(msg) => Err(TalosError::InvalidInput(msg.to_owned())),
            },
        }
    }

    /// The extensions as a list.
    pub fn into_vec(self) -> (v: Vec<String>)
        ensures
            texts(v) == self@,
    {
        self.0
    }
}

impl std::str::FromStr for Extensions {
    type Err = &'static str;

    fn from_str(s: &str) -> (r: Result<Self, Self::Err>)
        ensures
            match r {
                Ok(exts) => exts@ == listed_extensions(s@) && exts@.len() > 0,
                Err(msg) => listed_extensions(s@).len() == 0 && msg@
                    == "No valid extensions provided"@,
            },
    {
        Extensions::from_str(s)
    }
}

impl From<Extensions> for Vec<String> {
    fn from(extensions: Extensions) -> (v: Vec<String>)
        ensures
            texts(v) == extensions@,
    {
        extensions.0
    }
}

impl vstd::std_specs::convert::FromSpecImpl<Extensions> for Vec<String> {
    closed spec fn obeys_from_spec() -> bool {
        true
    }

    closed spec fn from_spec(extensions: Extensions) -> Vec<String> {
        extensions.0
    }
}

/// Where the report goes: the standard output, or a file.
#[derive(Debug, Clone)]
pub enum OutputPath {
    Stdout,
    File(String),
}

/// An `OutputPath` as specifications see it.
pub enum OutputView {
    Stdout,
    File(Seq<char>),
}

impl View for OutputPath {
    type V = OutputView;

    open spec fn view(&self) -> OutputView {
        match self {
            OutputPath::Stdout => OutputView::Stdout,
            OutputPath::File(path) => OutputView::File(path@),
        }
    }
}

/// The destination that an argument stands for. A lone dash is the standard
/// output, any other text is the path of a file, and without an argument the
/// report goes to `talos.json` in the default directory.
pub open spec fn chosen_output(input: Option<Seq<char>>, default_dir: Seq<char>) -> OutputView {
    match input {
        Some(path) => if path == "-"@ {
            OutputView::Stdout
        } else {
            OutputView::File(path)
        },
        None => OutputView::File(path_join(default_dir, "talos.json"@)),
    }
}

impl OutputPath {
    /// The destination that the argument stands for.
    pub fn new(input: Option<&str>, default_dir: &str) -> (out: OutputPath)
        ensures
            out@ == chosen_output(str_of(input), default_dir@),
    {
        match input {
            Some(path) => {
                if same_text(path, "-") {
                    OutputPath::Stdout
                } else {
                    OutputPath::File(path.to_owned())
                }
            },
            None => OutputPath::File(join(default_dir, "talos.json")),
        }
    }

    /// Whether the report goes to the standard output.
    pub fn is_stdout(&self) -> (r: bool)
        ensures
            r == (self@ is Stdout),
    {
        match self {
            OutputPath::Stdout => true,
            OutputPath::File(_) => false,
        }
    }

    /// The destination as text: a dash for the standard output, else the path.
    pub fn as_str(&self) -> (r: String)
        ensures
            r@ == match self@ {
                OutputView::Stdout => "-"@,
                OutputView::File(path) => path,
            },
    {
        match self {
            OutputPath::Stdout => "-".to_owned(),
            OutputPath::File(path) => path.clone(),
        }
    }
}

/// The largest size, in bytes, that a file may have to be scanned.
#[derive(Debug, Clone, Copy)]
pub struct MaxFileSize(u64);

impl View for MaxFileSize {
    type V = u64;

    closed spec fn view(&self) -> u64 {
        self.0
    }
}

impl MaxFileSize {
    pub fn new(size: u64) -> (m: MaxFileSize)
        ensures
            m@ == size,
    {
        MaxFileSize(size)
    }

    /// The limit in bytes.
    pub fn bytes(&self) -> (n: u64)
        ensures
            n == self@,
    {
        self.0
    }

    /// Whether a file of `size` bytes is over the limit.
    pub fn exceeds(&self, size: u64) -> (r: bool)
        ensures
            r == (size > self@),
    {
        size > self.0
    }
}

impl Default for MaxFileSize {
    /// Ten mebibytes.
    fn default() -> (m: MaxFileSize)
        ensures
            m@ == 10 * 1024 * 1024,
    {
        MaxFileSize(10485760)
    }
}

/// Glob patterns as the user wrote them.
#[derive(Debug, Clone)]
pub struct GlobPatterns(Vec<String>);

impl View for GlobPatterns {
    type V = Seq<Seq<char>>;

    closed spec fn view(&self) -> Seq<Seq<char>> {
        texts(self.0)
    }
}

impl GlobPatterns {
    pub fn new(patterns: Vec<String>) -> (g: GlobPatterns)
        ensures
            g@ == texts(patterns),
    {
        GlobPatterns(patterns)
    }

    /// No patterns.
    pub fn empty() -> (g: GlobPatterns)
        ensures
            g@.len() == 0,
    {
        GlobPatterns(Vec::new())
    }

    /// The patterns, in the order they were given.
    pub fn iter(&self) -> (it: std::slice::Iter<'_, String>)
        ensures
            into_iter_elts(it).map_values(|s: String| s@) == self@,
    {
        broadcast use vstd::std_specs::slice::axiom_spec_slice_iter;

        let it = self.0.iter();
        assert(into_iter_elts(it) =~= self.0@);
        it
    }

    /// Whether there are no patterns.
    pub fn is_empty(&self) -> (r: bool)
        ensures
            r == (self@.len() == 0),
    {
        self.0.is_empty()
    }

    /// The number of patterns.
    pub fn len(&self) -> (n: usize)
        ensures
            n == self@.len(),
    {
        self.0.len()
    }

    /// The pattern at `index`.
    pub fn get(&self, index: usize) -> (p: &String)
        requires
            index < self@.len(),
        ensures
            p@ == self@[index as int],
    {
        &self.0[index]
    }

    /// A copy of the patterns as a list.
    pub fn to_vec(&self) -> (v: Vec<String>)
        ensures
            texts(v) == self@,
    {
        let v = self.0.clone();
        assert(texts(v) =~= texts(self.0));
        v
    }

    /// The patterns as a list.
    pub fn into_vec(self) -> (v: Vec<String>)
        ensures
            texts(v) == self@,
    {
        self.0
    }
}

impl From<Vec<String>> for GlobPatterns {
    fn from(patterns: Vec<String>) -> (g: GlobPatterns)
        ensures
            g@ == texts(patterns),
    {
        GlobPatterns(patterns)
    }
}

impl vstd::std_specs::convert::FromSpecImpl<Vec<String>> for GlobPatterns {
    closed spec fn obeys_from_spec() -> bool {
        true
    }

    closed spec fn from_spec(patterns: Vec<String>) -> GlobPatterns {
        GlobPatterns(patterns)
    }
}

impl From<GlobPatterns> for Vec<String> {
    fn from(patterns: GlobPatterns) -> (v: Vec<String>)
        ensures
            texts(v) == patterns@,
    {
        patterns.0
    }
}

impl vstd::std_specs::convert::FromSpecImpl<GlobPatterns> for Vec<String> {
    closed spec fn obeys_from_spec() -> bool {
        true
    }

    closed spec fn from_spec(patterns: GlobPatterns) -> Vec<String> {
        patterns.0
    }
}

} // verus!
