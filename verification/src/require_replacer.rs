//! The inliner: from the files read so far to the bundle of an entry script,
//! or to the file that has to be read next.
//!
//! The replacer keeps every file it has been given. Inlining a script walks
//! its imports in source order and depth first; each import is replaced, in
//! the text of the script, by the inlined text of the file it names. The walk
//! never reads a file itself: where it meets a path that it has not been
//! given, it stops and names that path. A file is known by its canonical
//! path, so a file that loads itself is found out however the paths that lead
//! to it are written.

use crate::parser::{parse_statements, parsed};
use crate::path::{base_directory, join, joined, parent_of, resolve_base};
use crate::source::{
    files_view, find_loads, import_spans, imports_view, lemma_no_call_dropped, loads_of,
    loads_view, site_of, state_view, Fault, Import, ImportView, LoadSite, LoadSiteView,
    SourceFile, SourceFileView,
};
use crate::splice::{bodies_view, check_spans, spans_ordered, splice, substitute};
use crate::syntax::{statements_view, QuoteKind, Statement, StatementView};
use crate::utils::{embed, embedded};
use crate::visitor::{call_sites, ShapeFault, Visitor};
use vstd::prelude::*;
use vstd::set_lib::{lemma_int_range, lemma_len_subset, set_int_range};
use vstd::string::*;

verus! {

/// What stopped a bundle.
#[derive(Debug, Clone, Copy, PartialEq, Eq, Structural)]
pub enum ErrorKind {
    /// The file has not been given to the replacer yet.
    Absent,
    /// The file is already being inlined further up: it loads itself.
    Cycle,
    /// The file was given, and is at fault.
    File(Fault),
}

/// Why there is no bundle: what went wrong, at which file, and the files that
/// led there, from the entry script down to the one that loads `path`.
#[derive(Debug)]
pub struct BundleError {
    pub kind: ErrorKind,
    pub path: String,
    pub chain: Vec<String>,
}

/// What a [`BundleError`] holds, over sequences.
pub struct BundleErrorView {
    pub kind: ErrorKind,
    pub path: Seq<char>,
    pub chain: Seq<Seq<char>>,
}

/// The paths of a list, each as a sequence of characters.
pub open spec fn paths_view(paths: Seq<String>) -> Seq<Seq<char>> {
    Seq::new(paths.len(), |i: int| paths[i]@)
}

impl View for BundleError {
    type V = BundleErrorView;

    open spec fn view(&self) -> BundleErrorView {
        BundleErrorView { kind: self.kind, path: self.path@, chain: paths_view(self.chain@) }
    }
}

/// A few words for each kind of error.
pub open spec fn kind_text(kind: ErrorKind) -> Seq<char> {
    match kind {
        ErrorKind::Absent => "file not loaded"@,
        ErrorKind::Cycle => "file loads itself"@,
        ErrorKind::File(Fault::Unreadable) => "cannot read file"@,
        ErrorKind::File(Fault::Parse) => "not a valid script"@,
        ErrorKind::File(Fault::Shape(ShapeFault::MissingLiteral)) => "load call without a string literal"@,
        ErrorKind::File(Fault::Shape(_)) => "load call of an unsupported shape"@,
        ErrorKind::File(Fault::Span) => "load call without a place in the text"@,
        ErrorKind::File(Fault::NoDirectory) => "no directory to resolve load calls against"@,
    }
}

/// One line for each file of the chain, the nearest referrer first.
pub open spec fn referrers_text(chain: Seq<Seq<char>>) -> Seq<char>
    decreases chain.len(),
{
    if chain.len() == 0 {
        Seq::empty()
    } else {
        "\n  required by "@ + chain.last() + referrers_text(chain.drop_last())
    }
}

/// The message of an error: what went wrong, at which file, and below it the
/// files that led there.
pub open spec fn message(error: BundleErrorView) -> Seq<char> {
    kind_text(error.kind) + ": "@ + error.path + referrers_text(error.chain)
}

/// A few words for a kind of error.
fn kind_words(kind: ErrorKind) -> (r: &'static str)
    ensures
        r@ == kind_text(kind),
{
    match kind {
        ErrorKind::Absent => "file not loaded",
        ErrorKind::Cycle => "file loads itself",
        ErrorKind::File(Fault::Unreadable) => "cannot read file",
        ErrorKind::File(Fault::Parse) => "not a valid script",
        ErrorKind::File(Fault::Shape(ShapeFault::MissingLiteral)) => "load call without a string literal",
        ErrorKind::File(Fault::Shape(_)) => "load call of an unsupported shape",
        ErrorKind::File(Fault::Span) => "load call without a place in the text",
        ErrorKind::File(Fault::NoDirectory) => "no directory to resolve load calls against",
    }
}

impl BundleError {
    /// The message of this error, for a person to read.
    pub fn describe(&self) -> (r: String)
        ensures
            r@ == message(self@),
    {
        let ghost chain = paths_view(self.chain@);
        let mut out = kind_words(self.kind).to_owned();
        out.append(": ");
        out.append(self.path.as_str());
        let mut i: usize = self.chain.len();
        assert(chain.take(i as int) =~= chain);
        while i > 0
            invariant
                i <= self.chain.len(),
                chain == paths_view(self.chain@),
                out@ + referrers_text(chain.take(i as int)) == message(self@),
            decreases i,
        {
            let ghost before = out@;
            let ghost part = chain.take(i as int);
            assert(part.last() == self.chain[i - 1]@);
            assert(part.drop_last() =~= chain.take(i - 1));
            out.append("\n  required by ");
            out.append(self.chain[i - 1].as_str());
            assert(out@ + referrers_text(chain.take(i - 1)) =~= before + ("\n  required by "@
                + part.last() + referrers_text(part.drop_last())));
            i = i - 1;
        }
        assert(chain.take(0).len() == 0);
        assert(out@ + Seq::<char>::empty() =~= out@);
        out
    }
}

/// A bundle or the reason there is none, over sequences.
pub open spec fn outcome_view(outcome: Result<Vec<u8>, BundleError>) -> Result<
    Seq<u8>,
    BundleErrorView,
> {
    match outcome {
        Ok(text) => Ok(text@),
        Err(error) => Err(error@),
    }
}

/// File `i` is the first of the files with this path.
pub open spec fn file_at(files: Seq<SourceFileView>, path: Seq<char>, i: int) -> bool {
    &&& 0 <= i < files.len()
    &&& files[i].path == path
    &&& forall|j: int| 0 <= j < i ==> (#[trigger] files[j]).path != path
}

/// The index of the first file with this path.
pub open spec fn find_file(files: Seq<SourceFileView>, path: Seq<char>) -> Option<int> {
    if exists|i: int| file_at(files, path, i) {
        Some(choose|i: int| file_at(files, path, i))
    } else {
        None
    }
}

/// The path leads to the file with this canonical path.
pub open spec fn names_file(files: Seq<SourceFileView>, path: Seq<char>, canonical: Seq<char>)
    -> bool {
    find_file(files, path) matches Some(i) && files[i].canonical == canonical
}

/// The file with this canonical path is being inlined: some path on the
/// chain leads to it, written like the path that leads there now or
/// otherwise.
pub open spec fn on_cycle(files: Seq<SourceFileView>, chain: Seq<Seq<char>>, canonical: Seq<char>)
    -> bool {
    exists|j: int| 0 <= j < chain.len() && names_file(files, #[trigger] chain[j], canonical)
}

/// The files that are not being inlined.
pub open spec fn unvisited(files: Seq<SourceFileView>, chain: Seq<Seq<char>>) -> Set<int> {
    Set::new(|i: int| 0 <= i < files.len() && !on_cycle(files, chain, files[i].canonical))
}

/// The bundle of the file at `path`, reached through the files on `chain`.
///
/// A path that no file has is absent. A file that is being inlined already,
/// under whatever path, is a cycle. A file at fault, or with spans out of
/// order, stops the bundle. Otherwise the bundle is the text of the file with
/// each import replaced by the bundle of its target, wrapped as its load site
/// asks.
pub open spec fn inline(files: Seq<SourceFileView>, path: Seq<char>, chain: Seq<Seq<char>>)
    -> Result<Seq<u8>, BundleErrorView>
    decreases unvisited(files, chain).len(), 0nat,
{
    match find_file(files, path) {
        None => Err(BundleErrorView { kind: ErrorKind::Absent, path, chain }),
        Some(i) => if on_cycle(files, chain, files[i].canonical) {
            Err(BundleErrorView { kind: ErrorKind::Cycle, path, chain })
        } else {
            match files[i].state {
                Err(fault) => Err(BundleErrorView { kind: ErrorKind::File(fault), path, chain }),
                Ok(imports) => if !spans_ordered(import_spans(imports), files[i].text.len()) {
                    Err(BundleErrorView { kind: ErrorKind::File(Fault::Span), path, chain })
                } else {
                    proof {
                        lemma_visit_shrinks(files, chain, path);
                    }
                    match module_bodies(files, imports, chain.push(path)) {
                        Err(error) => Err(error),
                        Ok(bodies) => Ok(splice(files[i].text, import_spans(imports), bodies)),
                    }
                },
            }
        },
    }
}

/// The text that replaces each import, in their order, or the error of the
/// first import that has none. The chain ends in the file that holds the
/// imports.
pub open spec fn module_bodies(
    files: Seq<SourceFileView>,
    imports: Seq<ImportView>,
    chain: Seq<Seq<char>>,
) -> Result<Seq<Seq<u8>>, BundleErrorView>
    decreases unvisited(files, chain).len(), imports.len() + 1,
{
    if imports.len() == 0 {
        Ok(Seq::empty())
    } else {
        match module_bodies(files, imports.drop_last(), chain) {
            Err(error) => Err(error),
            Ok(bodies) => match inline(files, imports.last().target, chain) {
                Err(error) => Err(error),
                Ok(text) => Ok(bodies.push(embedded(text, imports.last().site.parent_type))),
            },
        }
    }
}

/// Entering a file leaves fewer files to enter.
pub proof fn lemma_visit_shrinks(
    files: Seq<SourceFileView>,
    chain: Seq<Seq<char>>,
    path: Seq<char>,
)
    requires
        find_file(files, path) is Some,
        !on_cycle(files, chain, files[find_file(files, path)->Some_0].canonical),
    ensures
        unvisited(files, chain).finite(),
        unvisited(files, chain.push(path)).len() < unvisited(files, chain).len(),
{
    let i = choose|i: int| file_at(files, path, i);
    assert(file_at(files, path, i));
    let before = unvisited(files, chain);
    let below = chain.push(path);
    let after = unvisited(files, below);
    lemma_int_range(0, files.len() as int);
    assert(before.subset_of(set_int_range(0, files.len() as int)));
    lemma_len_subset(before, set_int_range(0, files.len() as int));
    assert(before.contains(i));
    assert(below[chain.len() as int] == path);
    assert(names_file(files, below[chain.len() as int], files[i].canonical));
    assert(on_cycle(files, below, files[i].canonical));
    assert forall|j: int| after.contains(j) implies before.remove(i).contains(j) by {
        if on_cycle(files, chain, files[j].canonical) {
            let at = choose|at: int|
                0 <= at < chain.len() && names_file(files, #[trigger] chain[at], files[j].canonical);
            assert(below[at] == chain[at]);
            assert(names_file(files, below[at], files[j].canonical));
        }
    }
    assert(after.subset_of(before.remove(i)));
    vstd::set::axiom_set_remove_len(before, i);
    vstd::set::axiom_set_remove_finite(before, i);
    lemma_len_subset(after, before.remove(i));
}

/// The imports that the load sites of the file at `path` make: none where
/// there is no load site; else each load site with its argument joined to the
/// project root under the root policy and to the parent directory of `path`
/// otherwise, or the fault `NoDirectory` where `path` has no parent
/// directory.
pub open spec fn linked(
    root: Seq<char>,
    path: Seq<char>,
    use_root: bool,
    loads: Seq<LoadSiteView>,
) -> Result<Seq<ImportView>, Fault> {
    if loads.len() == 0 {
        Ok(Seq::empty())
    } else {
        match base_directory(root, parent_of(path), use_root) {
            None => Err(Fault::NoDirectory),
            Some(base) => Ok(
                Seq::new(
                    loads.len(),
                    |k: int|
                        ImportView { site: loads[k], target: joined(base, loads[k].argument) },
                ),
            ),
        }
    }
}

/// The state of a file at `path` with these top-level statements: the fault
/// of its first load call that is at fault, else what its load sites make.
pub open spec fn scanned(
    root: Seq<char>,
    path: Seq<char>,
    use_root: bool,
    statements: Seq<StatementView>,
) -> Result<Seq<ImportView>, Fault> {
    match loads_of(call_sites(statements)) {
        Err(fault) => Err(fault),
        Ok(loads) => linked(root, path, use_root, loads),
    }
}

/// Inlines the modules that a script loads, from the files it has been
/// given.
pub struct RequireReplacer {
    root: String,
    visitor: Visitor,
    use_root: bool,
    files: Vec<SourceFile>,
}

impl RequireReplacer {
    /// The project root that load arguments are resolved against under the
    /// root policy.
    pub closed spec fn root(&self) -> Seq<char> {
        self.root@
    }

    /// Whether the root policy is on.
    pub closed spec fn use_root(&self) -> bool {
        self.use_root
    }

    /// The files given so far, in the order they were given.
    pub closed spec fn files(&self) -> Seq<SourceFileView> {
        files_view(self.files@)
    }

    /// A replacer that has been given no file yet.
    pub fn new(root: &str, visitor: Visitor, use_root: bool) -> (r: Self)
        ensures
            r.root() == root@,
            r.use_root() == use_root,
            r.files() == Seq::<SourceFileView>::empty(),
    {
        let r = RequireReplacer { root: root.to_owned(), visitor, use_root, files: Vec::new() };
        assert(files_view(r.files@) =~= Seq::<SourceFileView>::empty());
        r
    }

    /// The files given so far.
    pub fn loaded(&self) -> (r: &Vec<SourceFile>)
        ensures
            files_view(r@) == self.files(),
    {
        &self.files
    }

    /// Gives the replacer a file as it stands.
    pub fn add_file(&mut self, file: SourceFile)
        ensures
            final(self).root() == old(self).root(),
            final(self).use_root() == old(self).use_root(),
            final(self).files() == old(self).files().push(file@),
    {
        self.files.push(file);
        assert(files_view(self.files@) =~= files_view(old(self).files@).push(file@));
    }

    /// Tells the replacer that the file at `path` cannot be read. Such a
    /// file has no canonical path; its path stands in for it.
    pub fn add_unreadable(&mut self, path: &str)
        ensures
            final(self).root() == old(self).root(),
            final(self).use_root() == old(self).use_root(),
            final(self).files() == old(self).files().push(
                SourceFileView {
                    path: path@,
                    canonical: path@,
                    text: Seq::empty(),
                    state: Err(Fault::Unreadable),
                },
            ),
    {
        self.add_file(
            SourceFile {
                path: path.to_owned(),
                canonical: path.to_owned(),
                text: Vec::new(),
                state: Err(Fault::Unreadable),
            },
        );
    }

    /// The imports that the load sites of the file at `path` make.
    fn link(&self, path: &str, loads: &Vec<LoadSite>) -> (r: Result<Vec<Import>, Fault>)
        ensures
            state_view(r) == linked(self.root(), path@, self.use_root(), loads_view(loads@)),
    {
        let mut imports: Vec<Import> = Vec::new();
        if loads.len() == 0 {
            assert(imports_view(imports@) =~= Seq::<ImportView>::empty());
            return Ok(imports);
        }
        let base = match resolve_base(self.root.as_str(), path, self.use_root) {
            None => {
                return Err(Fault::NoDirectory);
            },
            Some(base) => base,
        };
        let mut k: usize = 0;
        while k < loads.len()
            invariant
                k <= loads.len(),
                imports.len() == k,
                forall|j: int|
                    0 <= j < k ==> (#[trigger] imports[j])@ == (ImportView {
                        site: loads[j]@,
                        target: joined(base@, loads[j]@.argument),
                    }),
            decreases loads.len() - k,
        {
            let load = &loads[k];
            let target = join(base.as_str(), load.argument.as_str());
            let site = LoadSite {
                start: load.start,
                end: load.end,
                argument: load.argument.clone(),
                quote_type: load.quote_type,
                parent_type: load.parent_type,
            };
            imports.push(Import { site, target });
            k = k + 1;
        }
        assert(imports_view(imports@) =~= linked(
            self.root(),
            path@,
            self.use_root(),
            loads_view(loads@),
        )->Ok_0);
        Ok(imports)
    }

    /// Gives the replacer the file at `path` with the canonical path
    /// `canonical` and the text `text`, whose top-level statements are
    /// `stmts`. The loads of the file are resolved against `path`.
    pub fn add_parsed(&mut self, path: &str, canonical: &str, text: &str, stmts: &Vec<Statement>)
        ensures
            final(self).root() == old(self).root(),
            final(self).use_root() == old(self).use_root(),
            final(self).files() == old(self).files().push(
                SourceFileView {
                    path: path@,
                    canonical: canonical@,
                    text: text.spec_bytes(),
                    state: scanned(
                        old(self).root(),
                        path@,
                        old(self).use_root(),
                        statements_view(stmts@),
                    ),
                },
            ),
    {
        let state = match find_loads(&mut self.visitor, stmts) {
            Err(fault) => Err(fault),
            Ok(loads) => self.link(path, &loads),
        };
        let file = SourceFile {
            path: path.to_owned(),
            canonical: canonical.to_owned(),
            text: text.as_bytes_vec(),
            state,
        };
        self.add_file(file);
    }

    /// Gives the replacer the file at `path` with the canonical path
    /// `canonical` and the text `text`.
    ///
    /// Where the parser takes the text for no script, the file has the fault
    /// `Parse`; else the file is as [`Self::add_parsed`] leaves it for the
    /// statements that the parser found.
    pub fn add_source(&mut self, path: &str, canonical: &str, text: &str)
        ensures
            final(self).root() == old(self).root(),
            final(self).use_root() == old(self).use_root(),
            final(self).files() == old(self).files().push(
                SourceFileView {
                    path: path@,
                    canonical: canonical@,
                    text: text.spec_bytes(),
                    state: match parsed(text@) {
                        None => Err(Fault::Parse),
                        Some(statements) => scanned(
                            old(self).root(),
                            path@,
                            old(self).use_root(),
                            statements,
                        ),
                    },
                },
            ),
    {
        match parse_statements(text) {
            Some(stmts) => {
                self.add_parsed(path, canonical, text, &stmts);
            },
            None => {
                let file = SourceFile {
                    path: path.to_owned(),
                    canonical: canonical.to_owned(),
                    text: text.as_bytes_vec(),
                    state: Err(Fault::Parse),
                };
                self.add_file(file);
            },
        }
    }

    /// The bundle of the script at `input`: its text with every module it
    /// loads, directly or through other modules, inlined in place. Where a
    /// file on the way has not been given yet, the error is `Absent` and
    /// names it; where a file loads itself, directly or through others, the
    /// error is `Cycle`, also where the paths that lead to it are written
    /// differently. The replacer itself is left as it was.
    pub fn replace_requires(&mut self, input: &str) -> (r: Result<Vec<u8>, BundleError>)
        ensures
            final(self).root() == old(self).root(),
            final(self).use_root() == old(self).use_root(),
            final(self).files() == old(self).files(),
            outcome_view(r) == inline(old(self).files(), input@, Seq::empty()),
    {
        let chain: Vec<String> = Vec::new();
        assert(paths_view(chain@) =~= Seq::<Seq<char>>::empty());
        inline_file(&self.files, &input.to_owned(), &chain)
    }
}

/// A copy of `paths` with `path` behind it.
fn extended(paths: &Vec<String>, path: &String) -> (r: Vec<String>)
    ensures
        paths_view(r@) == paths_view(paths@).push(path@),
{
    let mut out: Vec<String> = Vec::new();
    let mut i: usize = 0;
    while i < paths.len()
        invariant
            i <= paths.len(),
            out.len() == i,
            forall|j: int| 0 <= j < i ==> out[j]@ == paths[j]@,
        decreases paths.len() - i,
    {
        out.push(paths[i].clone());
        i = i + 1;
    }
    out.push(path.clone());
    assert(paths_view(out@) =~= paths_view(paths@).push(path@));
    out
}

/// A copy of `paths`.
fn copied(paths: &Vec<String>) -> (r: Vec<String>)
    ensures
        paths_view(r@) == paths_view(paths@),
{
    let mut out: Vec<String> = Vec::new();
    let mut i: usize = 0;
    while i < paths.len()
        invariant
            i <= paths.len(),
            out.len() == i,
            forall|j: int| 0 <= j < i ==> out[j]@ == paths[j]@,
        decreases paths.len() - i,
    {
        out.push(paths[i].clone());
        i = i + 1;
    }
    assert(paths_view(out@) =~= paths_view(paths@));
    out
}

/// The spans of the imports, in their order.
fn spans_of(imports: &Vec<Import>) -> (r: Vec<(usize, usize)>)
    ensures
        r@ == import_spans(imports_view(imports@)),
{
    let mut out: Vec<(usize, usize)> = Vec::new();
    let mut i: usize = 0;
    while i < imports.len()
        invariant
            i <= imports.len(),
            out.len() == i,
            forall|j: int| 0 <= j < i ==> out[j] == (imports[j].site.start, imports[j].site.end),
        decreases imports.len() - i,
    {
        out.push((imports[i].site.start, imports[i].site.end));
        i = i + 1;
    }
    assert(out@ =~= import_spans(imports_view(imports@)));
    out
}

/// The index of the first of `files` with this path.
fn lookup(files: &Vec<SourceFile>, path: &String) -> (r: Option<usize>)
    ensures
        match r {
            Some(i) => find_file(files_view(files@), path@) == Some(i as int),
            None => find_file(files_view(files@), path@) is None,
        },
{
    let ghost view = files_view(files@);
    let mut i: usize = 0;
    while i < files.len()
        invariant
            i <= files.len(),
            view == files_view(files@),
            forall|j: int| 0 <= j < i ==> (#[trigger] view[j]).path != path@,
        decreases files.len() - i,
    {
        if files[i].path == *path {
            proof {
                assert(view[i as int] == files[i as int]@);
                assert(file_at(view, path@, i as int));
                let k = choose|k: int| file_at(view, path@, k);
                assert(file_at(view, path@, k));
                if k < i {
                    assert(view[k].path != path@);
                }
                if i < k {
                    assert(view[i as int].path != path@);
                }
            }
            return Some(i);
        }
        assert(view[i as int] == files[i as int]@);
        i = i + 1;
    }
    assert(forall|k: int| !file_at(view, path@, k));
    None
}

/// Whether some path of `chain` leads to the file with this canonical path.
fn being_inlined(files: &Vec<SourceFile>, chain: &Vec<String>, canonical: &String) -> (r: bool)
    ensures
        r == on_cycle(files_view(files@), paths_view(chain@), canonical@),
{
    let ghost all = files_view(files@);
    let ghost above = paths_view(chain@);
    let mut j: usize = 0;
    while j < chain.len()
        invariant
            j <= chain.len(),
            all == files_view(files@),
            above == paths_view(chain@),
            forall|k: int| 0 <= k < j ==> !names_file(all, #[trigger] above[k], canonical@),
        decreases chain.len() - j,
    {
        assert(above[j as int] == chain[j as int]@);
        match lookup(files, &chain[j]) {
            Some(i) => {
                assert(all[i as int] == files[i as int]@);
                if files[i].canonical == *canonical {
                    assert(names_file(all, above[j as int], canonical@));
                    return true;
                }
            },
            None => {},
        }
        j = j + 1;
    }
    false
}

/// The bundle of the file at `path` among `files`, reached through `chain`.
#[verifier::loop_isolation(false)]
fn inline_file(files: &Vec<SourceFile>, path: &String, chain: &Vec<String>) -> (r: Result<
    Vec<u8>,
    BundleError,
>)
    ensures
        outcome_view(r) == inline(files_view(files@), path@, paths_view(chain@)),
    decreases unvisited(files_view(files@), paths_view(chain@)).len(),
{
    let ghost all = files_view(files@);
    let ghost above = paths_view(chain@);
    let i = match lookup(files, path) {
        None => {
            return Err(
                BundleError { kind: ErrorKind::Absent, path: path.clone(), chain: copied(chain) },
            );
        },
        Some(i) => i,
    };
    let file = &files[i];
    assert(all[i as int] == file@);
    if being_inlined(files, chain, &file.canonical) {
        return Err(BundleError { kind: ErrorKind::Cycle, path: path.clone(), chain: copied(chain) });
    }
    let imports = match &file.state {
        Err(fault) => {
            return Err(
                BundleError {
                    kind: ErrorKind::File(*fault),
                    path: path.clone(),
                    chain: copied(chain),
                },
            );
        },
        Ok(imports) => imports,
    };
    let ghost wanted = imports_view(imports@);
    let spans = spans_of(imports);
    if !check_spans(&spans, file.text.len()) {
        return Err(
            BundleError {
                kind: ErrorKind::File(Fault::Span),
                path: path.clone(),
                chain: copied(chain),
            },
        );
    }
    let inner = extended(chain, path);
    let ghost below = paths_view(inner@);
    proof {
        lemma_visit_shrinks(all, above, path@);
    }
    let mut bodies: Vec<Vec<u8>> = Vec::new();
    let mut k: usize = 0;
    assert(bodies_view(bodies@) =~= Seq::<Seq<u8>>::empty());
    while k < imports.len()
        invariant
            k <= imports.len(),
            bodies.len() == k,
            all == files_view(files@),
            wanted == imports_view(imports@),
            below == paths_view(inner@),
            unvisited(all, below).len() < unvisited(all, above).len(),
            above == paths_view(chain@),
            module_bodies(all, wanted.take(k as int), below) == Ok::<
                Seq<Seq<u8>>,
                BundleErrorView,
            >(bodies_view(bodies@)),
        decreases imports.len() - k,
    {
        proof {
            assert(wanted.take(k + 1).drop_last() =~= wanted.take(k as int));
            assert(wanted.take(k + 1).last() == imports[k as int]@);
        }
        let ghost before = bodies_view(bodies@);
        match inline_file(files, &imports[k].target, &inner) {
            Err(error) => {
                proof {
                    assert(module_bodies(all, wanted.take(k + 1), below) == Err::<
                        Seq<Seq<u8>>,
                        BundleErrorView,
                    >(error@));
                    lemma_error_stays(all, wanted, below, k + 1, error@);
                }
                return Err(error);
            },
            Ok(text) => {
                let body = embed(&text, imports[k].site.parent_type);
                bodies.push(body);
                assert(bodies_view(bodies@) =~= before.push(
                    embedded(text@, imports[k as int].site.parent_type),
                ));
            },
        }
        k = k + 1;
    }
    assert(wanted.take(k as int) =~= wanted);
    match substitute(&file.text, &spans, &bodies) {
        Some(out) => Ok(out),
        None => Err(
            BundleError {
                kind: ErrorKind::File(Fault::Span),
                path: path.clone(),
                chain: copied(chain),
            },
        ),
    }
}

/// Once an import has failed, the imports behind it change nothing.
pub proof fn lemma_error_stays(
    files: Seq<SourceFileView>,
    imports: Seq<ImportView>,
    chain: Seq<Seq<char>>,
    k: int,
    error: BundleErrorView,
)
    requires
        0 <= k <= imports.len(),
        module_bodies(files, imports.take(k), chain) == Err::<Seq<Seq<u8>>, BundleErrorView>(error),
    ensures
        module_bodies(files, imports, chain) == Err::<Seq<Seq<u8>>, BundleErrorView>(error),
    decreases imports.len() - k,
{
    if k == imports.len() {
        assert(imports.take(k) =~= imports);
    } else {
        assert(imports.take(k + 1).drop_last() =~= imports.take(k));
        lemma_error_stays(files, imports, chain, k + 1, error);
    }
}

/// Where every import of a list has a replacement, there is one for each
/// import, and it is the bundle of the import's target, wrapped as the load
/// site asks.
pub proof fn lemma_bodies_each(
    files: Seq<SourceFileView>,
    imports: Seq<ImportView>,
    chain: Seq<Seq<char>>,
)
    requires
        module_bodies(files, imports, chain) is Ok,
    ensures
        module_bodies(files, imports, chain)->Ok_0.len() == imports.len(),
        forall|k: int|
            0 <= k < imports.len() ==> {
                &&& (#[trigger] inline(files, imports[k].target, chain)) is Ok
                &&& module_bodies(files, imports, chain)->Ok_0[k] == embedded(
                    inline(files, imports[k].target, chain)->Ok_0,
                    imports[k].site.parent_type,
                )
            },
    decreases imports.len(),
{
    if imports.len() > 0 {
        let front = imports.drop_last();
        lemma_bodies_each(files, front, chain);
        let bodies = module_bodies(files, imports, chain)->Ok_0;
        assert forall|k: int| 0 <= k < imports.len() implies {
            &&& (#[trigger] inline(files, imports[k].target, chain)) is Ok
            &&& bodies[k] == embedded(
                inline(files, imports[k].target, chain)->Ok_0,
                imports[k].site.parent_type,
            )
        } by {
            if k < front.len() {
                assert(front[k] == imports[k]);
            }
        }
    }
}

/// No load site is left unresolved: where a file has a bundle, the bundle is
/// the text of the file with every one of its imports replaced, each by the
/// bundle of its target, wrapped as the load site asks.
pub proof fn lemma_every_import_replaced(
    files: Seq<SourceFileView>,
    path: Seq<char>,
    chain: Seq<Seq<char>>,
)
    requires
        inline(files, path, chain) is Ok,
    ensures
        find_file(files, path) is Some,
        files[find_file(files, path)->Some_0].state is Ok,
        ({
            let file = files[find_file(files, path)->Some_0];
            let imports = file.state->Ok_0;
            let bodies = module_bodies(files, imports, chain.push(path));
            &&& bodies is Ok
            &&& bodies->Ok_0.len() == imports.len()
            &&& spans_ordered(import_spans(imports), file.text.len())
            &&& inline(files, path, chain)->Ok_0 == splice(
                file.text,
                import_spans(imports),
                bodies->Ok_0,
            )
            &&& forall|k: int|
                0 <= k < imports.len() ==> {
                    &&& (#[trigger] inline(files, imports[k].target, chain.push(path))) is Ok
                    &&& bodies->Ok_0[k] == embedded(
                        inline(files, imports[k].target, chain.push(path))->Ok_0,
                        imports[k].site.parent_type,
                    )
                }
        }),
{
    let file = files[find_file(files, path)->Some_0];
    lemma_bodies_each(files, file.state->Ok_0, chain.push(path));
}

/// A file without load sites passes through unchanged.
pub proof fn lemma_without_imports_unchanged(
    files: Seq<SourceFileView>,
    path: Seq<char>,
    chain: Seq<Seq<char>>,
)
    requires
        find_file(files, path) is Some,
        !on_cycle(files, chain, files[find_file(files, path)->Some_0].canonical),
        files[find_file(files, path)->Some_0].state == Ok::<Seq<ImportView>, Fault>(Seq::empty()),
    ensures
        inline(files, path, chain) == Ok::<Seq<u8>, BundleErrorView>(
            files[find_file(files, path)->Some_0].text,
        ),
{
    let file = files[find_file(files, path)->Some_0];
    assert(import_spans(Seq::<ImportView>::empty()) =~= Seq::<(usize, usize)>::empty());
    assert(module_bodies(files, Seq::<ImportView>::empty(), chain.push(path)) == Ok::<
        Seq<Seq<u8>>,
        BundleErrorView,
    >(Seq::empty()));
}

/// A failure anywhere is a failure of the whole: where the bundle of an
/// import fails, the bundle of the file that holds it fails too, with the
/// error of its first failing import.
pub proof fn lemma_failure_is_fatal(
    files: Seq<SourceFileView>,
    path: Seq<char>,
    chain: Seq<Seq<char>>,
    k: int,
)
    requires
        find_file(files, path) is Some,
        !on_cycle(files, chain, files[find_file(files, path)->Some_0].canonical),
        files[find_file(files, path)->Some_0].state is Ok,
        spans_ordered(
            import_spans(files[find_file(files, path)->Some_0].state->Ok_0),
            files[find_file(files, path)->Some_0].text.len(),
        ),
        0 <= k < files[find_file(files, path)->Some_0].state->Ok_0.len(),
        inline(
            files,
            files[find_file(files, path)->Some_0].state->Ok_0[k].target,
            chain.push(path),
        ) is Err,
        forall|j: int|
            0 <= j < k ==> (#[trigger] inline(
                files,
                files[find_file(files, path)->Some_0].state->Ok_0[j].target,
                chain.push(path),
            )) is Ok,
    ensures
        inline(files, path, chain) == Err::<Seq<u8>, BundleErrorView>(
            inline(
                files,
                files[find_file(files, path)->Some_0].state->Ok_0[k].target,
                chain.push(path),
            )->Err_0,
        ),
{
    let imports = files[find_file(files, path)->Some_0].state->Ok_0;
    let below = chain.push(path);
    let error = inline(files, imports[k].target, below)->Err_0;
    lemma_bodies_reach(files, imports, below, k);
    assert(imports.take(k + 1).drop_last() =~= imports.take(k));
    assert(imports.take(k + 1).last() == imports[k]);
    lemma_error_stays(files, imports, below, k + 1, error);
}

/// Where each of the first `k` imports has a bundle, the first `k` imports
/// have their replacements.
proof fn lemma_bodies_reach(
    files: Seq<SourceFileView>,
    imports: Seq<ImportView>,
    chain: Seq<Seq<char>>,
    k: int,
)
    requires
        0 <= k <= imports.len(),
        forall|j: int| 0 <= j < k ==> (#[trigger] inline(files, imports[j].target, chain)) is Ok,
    ensures
        module_bodies(files, imports.take(k), chain) is Ok,
    decreases k,
{
    if k > 0 {
        lemma_bodies_reach(files, imports, chain, k - 1);
        assert(imports.take(k).drop_last() =~= imports.take(k - 1));
        assert(imports.take(k).last() == imports[k - 1]);
        assert(inline(files, imports[k - 1].target, chain) is Ok);
    } else {
        assert(imports.take(k).len() == 0);
    }
}

/// An error names the file at which the bundle stopped and the files that
/// led there. The chain of the error begins with the chain that the bundle
/// was asked under; where it is longer, the next file on it is the one asked
/// for, and its last file holds an import of the file at which it stopped.
/// The kind of the error is true of that file: an absent file is none of the
/// files, a cycle is a file that a path on the chain leads to, and a file at
/// fault has that fault.
pub proof fn lemma_error_names_culprit(
    files: Seq<SourceFileView>,
    path: Seq<char>,
    chain: Seq<Seq<char>>,
)
    requires
        inline(files, path, chain) is Err,
    ensures
        culprit_named(files, path, chain, inline(files, path, chain)->Err_0),
    decreases unvisited(files, chain).len(), 0nat,
{
    let error = inline(files, path, chain)->Err_0;
    assert(chain.subrange(0, chain.len() as int) =~= chain);
    if find_file(files, path) is Some && !on_cycle(
        files,
        chain,
        files[find_file(files, path)->Some_0].canonical,
    ) {
        let i = find_file(files, path)->Some_0;
        assert(file_at(files, path, i));
        if files[i].state is Ok && spans_ordered(
            import_spans(files[i].state->Ok_0),
            files[i].text.len(),
        ) {
            lemma_visit_shrinks(files, chain, path);
            let below = chain.push(path);
            let imports = files[i].state->Ok_0;
            assert(below.last() == path);
            assert(imports.take(imports.len() as int) =~= imports);
            lemma_import_error(files, imports, below, imports.len() as int);
            let k = choose|k: int|
                0 <= k < imports.len() && culprit_named(files, imports[k].target, below, error);
            assert(culprit_named(files, imports[k].target, below, error));
            assert(error.chain.subrange(0, below.len() as int)[chain.len() as int]
                == error.chain[chain.len() as int]);
            assert(error.chain.subrange(0, chain.len() as int) =~= error.chain.subrange(
                0,
                below.len() as int,
            ).subrange(0, chain.len() as int));
            assert(below.subrange(0, chain.len() as int) =~= chain);
        }
    }
}

/// What [`lemma_error_names_culprit`] states of an error.
pub open spec fn culprit_named(
    files: Seq<SourceFileView>,
    path: Seq<char>,
    chain: Seq<Seq<char>>,
    error: BundleErrorView,
) -> bool {
    &&& chain.len() <= error.chain.len()
    &&& error.chain.subrange(0, chain.len() as int) == chain
    &&& error.chain.len() == chain.len() ==> error.path == path
    &&& error.chain.len() > chain.len() ==> {
        &&& error.chain[chain.len() as int] == path
        &&& holds_import(files, error.chain.last(), error.path)
    }
    &&& match error.kind {
        ErrorKind::Absent => find_file(files, error.path) is None,
        ErrorKind::Cycle => find_file(files, error.path) is Some && on_cycle(
            files,
            error.chain,
            files[find_file(files, error.path)->Some_0].canonical,
        ),
        ErrorKind::File(fault) => find_file(files, error.path) is Some && {
            let file = files[find_file(files, error.path)->Some_0];
            ||| file.state == Err::<Seq<ImportView>, Fault>(fault)
            ||| fault == Fault::Span && file.state is Ok && !spans_ordered(
                import_spans(file.state->Ok_0),
                file.text.len(),
            )
        },
    }
}

/// The file at `referrer` holds an import whose target is `target`.
pub open spec fn holds_import(
    files: Seq<SourceFileView>,
    referrer: Seq<char>,
    target: Seq<char>,
) -> bool {
    &&& find_file(files, referrer) is Some
    &&& files[find_file(files, referrer)->Some_0].state is Ok
    &&& exists|k: int|
        0 <= k < files[find_file(files, referrer)->Some_0].state->Ok_0.len() && (
        #[trigger] files[find_file(files, referrer)->Some_0].state->Ok_0[k]).target == target
}

/// The same for the imports of one file, whose path ends the chain.
proof fn lemma_import_error(
    files: Seq<SourceFileView>,
    imports: Seq<ImportView>,
    chain: Seq<Seq<char>>,
    n: int,
)
    requires
        0 <= n <= imports.len(),
        chain.len() > 0,
        find_file(files, chain.last()) is Some,
        files[find_file(files, chain.last())->Some_0].state == Ok::<Seq<ImportView>, Fault>(
            imports,
        ),
    ensures
        module_bodies(files, imports.take(n), chain) matches Err(error) ==> {
            &&& exists|k: int| 0 <= k < n && culprit_named(files, imports[k].target, chain, error)
            &&& holds_import(files, error.chain.last(), error.path)
        },
    decreases unvisited(files, chain).len(), n + 1,
{
    if n > 0 {
        let part = imports.take(n);
        assert(part.drop_last() =~= imports.take(n - 1));
        assert(part.last() == imports[n - 1]);
        lemma_import_error(files, imports, chain, n - 1);
        if module_bodies(files, imports.take(n - 1), chain) is Ok {
            let target = imports[n - 1].target;
            if inline(files, target, chain) is Err {
                lemma_error_names_culprit(files, target, chain);
                let error = inline(files, target, chain)->Err_0;
                assert(culprit_named(files, imports[n - 1].target, chain, error));
                if error.chain.len() == chain.len() {
                    assert(error.chain =~= chain);
                    assert(files[find_file(files, chain.last())->Some_0].state->Ok_0[n - 1].target
                        == error.path);
                }
            }
        }
    }
}

/// The imports with every load site marked as quoted in one way.
pub open spec fn requoted_imports(imports: Seq<ImportView>, quote_type: QuoteKind) -> Seq<
    ImportView,
> {
    Seq::new(
        imports.len(),
        |k: int|
            ImportView {
                site: LoadSiteView { quote_type, ..imports[k].site },
                target: imports[k].target,
            },
    )
}

/// The files with every load site marked as quoted in one way.
pub open spec fn requoted(files: Seq<SourceFileView>, quote_type: QuoteKind) -> Seq<
    SourceFileView,
> {
    Seq::new(
        files.len(),
        |i: int|
            SourceFileView {
                path: files[i].path,
                canonical: files[i].canonical,
                text: files[i].text,
                state: match files[i].state {
                    Ok(imports) => Ok(requoted_imports(imports, quote_type)),
                    Err(fault) => Err(fault),
                },
            },
    )
}

/// The quotes of a load argument have no bearing on the bundle: with every
/// load site marked as quoted in one way, whichever, the bundle is the same.
/// So two sets of files that differ in the quotes of their load sites alone
/// have the same bundle.
pub proof fn lemma_quotes_do_not_matter(
    files: Seq<SourceFileView>,
    quote_type: QuoteKind,
    path: Seq<char>,
    chain: Seq<Seq<char>>,
)
    ensures
        inline(requoted(files, quote_type), path, chain) == inline(files, path, chain),
    decreases unvisited(files, chain).len(), 0nat,
{
    let other = requoted(files, quote_type);
    lemma_requoted_find(files, quote_type, path);
    if find_file(files, path) is Some {
        let i = find_file(files, path)->Some_0;
        assert(file_at(files, path, i));
        lemma_requoted_cycle(files, quote_type, chain, files[i].canonical);
        if !on_cycle(files, chain, files[i].canonical) && files[i].state is Ok {
            let imports = files[i].state->Ok_0;
            let marked = requoted_imports(imports, quote_type);
            assert(other[i].state == Ok::<Seq<ImportView>, Fault>(marked));
            assert(import_spans(marked) =~= import_spans(imports));
            if spans_ordered(import_spans(imports), files[i].text.len()) {
                lemma_visit_shrinks(files, chain, path);
                lemma_quotes_of_imports(
                    files,
                    quote_type,
                    imports,
                    chain.push(path),
                    imports.len() as int,
                );
                assert(imports.take(imports.len() as int) =~= imports);
                assert(marked.take(imports.len() as int) =~= marked);
            }
        }
    }
}

/// Marking the quotes changes no canonical path: a file is being inlined
/// exactly where it was before.
proof fn lemma_requoted_cycle(
    files: Seq<SourceFileView>,
    quote_type: QuoteKind,
    chain: Seq<Seq<char>>,
    canonical: Seq<char>,
)
    ensures
        on_cycle(requoted(files, quote_type), chain, canonical) == on_cycle(
            files,
            chain,
            canonical,
        ),
{
    let other = requoted(files, quote_type);
    assert forall|j: int| 0 <= j < chain.len() implies names_file(
        other,
        #[trigger] chain[j],
        canonical,
    ) == names_file(files, chain[j], canonical) by {
        lemma_requoted_find(files, quote_type, chain[j]);
        if find_file(files, chain[j]) is Some {
            let i = find_file(files, chain[j])->Some_0;
            assert(file_at(files, chain[j], i));
        }
    }
}

/// Marking the quotes moves no file: each path is found where it was.
proof fn lemma_requoted_find(files: Seq<SourceFileView>, quote_type: QuoteKind, path: Seq<char>)
    ensures
        find_file(requoted(files, quote_type), path) == find_file(files, path),
{
    let other = requoted(files, quote_type);
    assert forall|i: int| file_at(other, path, i) == file_at(files, path, i) by {
        if 0 <= i < files.len() {
            assert(other[i].path == files[i].path);
            if file_at(files, path, i) {
                assert forall|j: int| 0 <= j < i implies (#[trigger] other[j]).path != path by {
                    assert(files[j].path != path);
                }
            }
            if file_at(other, path, i) {
                assert forall|j: int| 0 <= j < i implies (#[trigger] files[j]).path != path by {
                    assert(other[j].path != path);
                }
            }
        }
    }
    if exists|i: int| file_at(files, path, i) {
        let a = choose|i: int| file_at(files, path, i);
        let b = choose|i: int| file_at(other, path, i);
        assert(file_at(files, path, a));
        assert(file_at(other, path, a));
        assert(file_at(other, path, b));
        if a < b {
            assert(other[a].path != path);
        }
        if b < a {
            assert(other[b].path != path);
        }
    } else {
        assert(forall|i: int| !file_at(other, path, i));
    }
}

/// The same for the first `n` imports of a file.
proof fn lemma_quotes_of_imports(
    files: Seq<SourceFileView>,
    quote_type: QuoteKind,
    imports: Seq<ImportView>,
    chain: Seq<Seq<char>>,
    n: int,
)
    requires
        0 <= n <= imports.len(),
    ensures
        module_bodies(
            requoted(files, quote_type),
            requoted_imports(imports, quote_type).take(n),
            chain,
        ) == module_bodies(files, imports.take(n), chain),
    decreases unvisited(files, chain).len(), n + 1,
{
    let marked = requoted_imports(imports, quote_type);
    if n > 0 {
        assert(imports.take(n).drop_last() =~= imports.take(n - 1));
        assert(marked.take(n).drop_last() =~= marked.take(n - 1));
        assert(imports.take(n).last() == imports[n - 1]);
        assert(marked.take(n).last() == marked[n - 1]);
        lemma_quotes_of_imports(files, quote_type, imports, chain, n - 1);
        lemma_quotes_do_not_matter(files, quote_type, imports[n - 1].target, chain);
    } else {
        assert(imports.take(n).len() == 0);
        assert(marked.take(n).len() == 0);
    }
}

/// The file can be inlined as it stands: it was read and parsed, each of its
/// load calls is a load site with a target, and its load sites lie in order
/// inside its text.
pub open spec fn sound(file: SourceFileView) -> bool {
    file.state is Ok && spans_ordered(import_spans(file.state->Ok_0), file.text.len())
}

/// Everything that the bundle of the file at `path` needs is there: the file
/// has been given, is not being inlined already and is sound, and the same
/// holds of the target of each of its imports, with the file on the chain.
pub open spec fn loadable(files: Seq<SourceFileView>, path: Seq<char>, chain: Seq<Seq<char>>)
    -> bool
    decreases unvisited(files, chain).len(), 0nat,
{
    match find_file(files, path) {
        None => false,
        Some(i) => if on_cycle(files, chain, files[i].canonical) || !sound(files[i]) {
            false
        } else {
            proof {
                lemma_visit_shrinks(files, chain, path);
            }
            all_loadable(files, files[i].state->Ok_0, chain.push(path))
        },
    }
}

/// The target of each of the imports is loadable.
pub open spec fn all_loadable(
    files: Seq<SourceFileView>,
    imports: Seq<ImportView>,
    chain: Seq<Seq<char>>,
) -> bool
    decreases unvisited(files, chain).len(), imports.len() + 1,
{
    if imports.len() == 0 {
        true
    } else {
        all_loadable(files, imports.drop_last(), chain) && loadable(
            files,
            imports.last().target,
            chain,
        )
    }
}

/// A bundle exists exactly where nothing is missing: where every file that
/// the entry script loads, directly or through other files, has been given
/// and is sound, and no file loads itself.
pub proof fn lemma_bundle_exists(
    files: Seq<SourceFileView>,
    path: Seq<char>,
    chain: Seq<Seq<char>>,
)
    ensures
        inline(files, path, chain) is Ok <==> loadable(files, path, chain),
    decreases unvisited(files, chain).len(), 0nat,
{
    if find_file(files, path) is Some {
        let i = find_file(files, path)->Some_0;
        if !on_cycle(files, chain, files[i].canonical) && sound(files[i]) {
            lemma_visit_shrinks(files, chain, path);
            lemma_bodies_exist(files, files[i].state->Ok_0, chain.push(path));
        }
    }
}

/// The same for the imports of one file.
proof fn lemma_bodies_exist(
    files: Seq<SourceFileView>,
    imports: Seq<ImportView>,
    chain: Seq<Seq<char>>,
)
    ensures
        module_bodies(files, imports, chain) is Ok <==> all_loadable(files, imports, chain),
    decreases unvisited(files, chain).len(), imports.len() + 1,
{
    if imports.len() > 0 {
        lemma_bodies_exist(files, imports.drop_last(), chain);
        lemma_bundle_exists(files, imports.last().target, chain);
    }
}

/// No load call of a script is lost on the way to its imports: where a file
/// with these top-level statements has imports at all, it has one for each
/// call at its top level that mentions the load keyword, in source order, and
/// the load site of each import is the one that the call stands for.
pub proof fn lemma_every_call_is_an_import(
    root: Seq<char>,
    path: Seq<char>,
    use_root: bool,
    statements: Seq<StatementView>,
)
    ensures
        scanned(root, path, use_root, statements) matches Ok(imports) ==> {
            &&& imports.len() == call_sites(statements).len()
            &&& forall|k: int|
                0 <= k < imports.len() ==> site_of(#[trigger] call_sites(statements)[k]) == Ok::<
                    LoadSiteView,
                    Fault,
                >(imports[k].site)
        },
{
    if scanned(root, path, use_root, statements) is Ok {
        lemma_no_call_dropped(call_sites(statements));
    }
}

/// Under the root policy every load argument is joined to the project root,
/// whichever file holds the call and however deep it lies.
pub proof fn lemma_root_policy(root: Seq<char>, path: Seq<char>, loads: Seq<LoadSiteView>)
    ensures
        linked(root, path, true, loads) is Ok,
        linked(root, path, true, loads)->Ok_0.len() == loads.len(),
        forall|k: int|
            0 <= k < loads.len() ==> (#[trigger] linked(root, path, true, loads)->Ok_0[k])
                == (ImportView { site: loads[k], target: joined(root, loads[k].argument) }),
{
}

/// Under the file policy every load argument is joined to the parent
/// directory of the file that holds the call; a file with load sites and
/// without a parent directory is at fault.
pub proof fn lemma_file_policy(root: Seq<char>, path: Seq<char>, loads: Seq<LoadSiteView>)
    requires
        loads.len() > 0,
    ensures
        linked(root, path, false, loads) is Ok <==> parent_of(path) is Some,
        parent_of(path) is None ==> linked(root, path, false, loads) == Err::<
            Seq<ImportView>,
            Fault,
        >(Fault::NoDirectory),
        parent_of(path) is Some ==> linked(root, path, false, loads)->Ok_0.len() == loads.len(),
        forall|k: int|
            parent_of(path) is Some && 0 <= k < loads.len() ==> (#[trigger] linked(
                root,
                path,
                false,
                loads,
            )->Ok_0[k]) == (ImportView {
                site: loads[k],
                target: joined(parent_of(path)->Some_0, loads[k].argument),
            }),
{
}

} // verus!
