//! A script as the bundler holds it: its path, its text, and the module
//! loads found at its top level, each with the file it names.

use crate::syntax::{statements_view, QuoteKind, Statement};
use crate::visitor::{
    call_shape, call_sites, get_require_info, sites_view, CallShape, CallShapeView, ParentType,
    Require, RequireView, ShapeFault, Visitor,
};
use vstd::prelude::*;

verus! {

/// Why a file cannot take part in a bundle.
#[derive(Debug, Clone, Copy, PartialEq, Eq, Structural)]
pub enum Fault {
    /// The file does not exist or cannot be read.
    Unreadable,
    /// The text of the file is no valid script.
    Parse,
    /// A call mentions the load keyword but is no `keyword("literal")`.
    Shape(ShapeFault),
    /// A load call has no place in the text: the parser gave it no span, or
    /// the spans of the file are not in order inside its text.
    Span,
    /// The path of the file has no parent directory to resolve its loads
    /// against.
    NoDirectory,
}

/// One module load of a script.
#[derive(Debug)]
pub struct LoadSite {
    /// The byte offset at which the call begins.
    pub start: usize,
    /// The byte offset just behind the call.
    pub end: usize,
    /// The module path as written, without its quotes.
    pub argument: String,
    /// The quotes that the module path was written in.
    pub quote_type: QuoteKind,
    /// Whether the value of the call is used.
    pub parent_type: ParentType,
}

/// What a [`LoadSite`] holds, over sequences.
pub struct LoadSiteView {
    pub start: usize,
    pub end: usize,
    pub argument: Seq<char>,
    pub quote_type: QuoteKind,
    pub parent_type: ParentType,
}

impl View for LoadSite {
    type V = LoadSiteView;

    open spec fn view(&self) -> LoadSiteView {
        LoadSiteView {
            start: self.start,
            end: self.end,
            argument: self.argument@,
            quote_type: self.quote_type,
            parent_type: self.parent_type,
        }
    }
}

/// The load sites of a list, each by its view.
pub open spec fn loads_view(loads: Seq<LoadSite>) -> Seq<LoadSiteView> {
    Seq::new(loads.len(), |i: int| loads[i]@)
}

/// A load site together with the path of the file that it loads.
#[derive(Debug)]
pub struct Import {
    pub site: LoadSite,
    pub target: String,
}

/// What an [`Import`] holds, over sequences.
pub struct ImportView {
    pub site: LoadSiteView,
    pub target: Seq<char>,
}

impl View for Import {
    type V = ImportView;

    open spec fn view(&self) -> ImportView {
        ImportView { site: self.site@, target: self.target@ }
    }
}

/// The imports of a list, each by its view.
pub open spec fn imports_view(imports: Seq<Import>) -> Seq<ImportView> {
    Seq::new(imports.len(), |i: int| imports[i]@)
}

/// The spans of the imports of a file, in their order.
pub open spec fn import_spans(imports: Seq<ImportView>) -> Seq<(usize, usize)> {
    Seq::new(imports.len(), |i: int| (imports[i].site.start, imports[i].site.end))
}

/// The imports of a file or its fault, over sequences.
pub open spec fn state_view(state: Result<Vec<Import>, Fault>) -> Result<Seq<ImportView>, Fault> {
    match state {
        Ok(imports) => Ok(imports_view(imports@)),
        Err(fault) => Err(fault),
    }
}

/// One file of the bundle.
#[derive(Debug)]
pub struct SourceFile {
    /// The path under which the file is loaded: the path of the entry script
    /// as it was given, or the target of the import that loads the file.
    pub path: String,
    /// The canonical path of the file, which tells whether two paths lead to
    /// one file. The library reads no file system: whoever reads the file
    /// hands this in.
    pub canonical: String,
    /// The raw text of the file.
    pub text: Vec<u8>,
    /// The imports at the top level of the file, in source order, or why the
    /// file cannot be used.
    pub state: Result<Vec<Import>, Fault>,
}

/// What a [`SourceFile`] holds, over sequences.
pub struct SourceFileView {
    pub path: Seq<char>,
    pub canonical: Seq<char>,
    pub text: Seq<u8>,
    pub state: Result<Seq<ImportView>, Fault>,
}

impl View for SourceFile {
    type V = SourceFileView;

    open spec fn view(&self) -> SourceFileView {
        SourceFileView {
            path: self.path@,
            canonical: self.canonical@,
            text: self.text@,
            state: state_view(self.state),
        }
    }
}

/// The files of a list, each by its view.
pub open spec fn files_view(files: Seq<SourceFile>) -> Seq<SourceFileView> {
    Seq::new(files.len(), |i: int| files[i]@)
}

/// The load site that a call found by the classifier stands for: its shape
/// must be supported and the parser must have given it a span.
pub open spec fn site_of(found: RequireView) -> Result<LoadSiteView, Fault> {
    match call_shape(found.function_call.suffixes) {
        CallShapeView::UnsupportedShape(fault) => Err(Fault::Shape(fault)),
        CallShapeView::Supported { literal, quote_type } => match found.function_call.span {
            None => Err(Fault::Span),
            Some((start, end)) => Ok(
                LoadSiteView {
                    start,
                    end,
                    argument: literal,
                    quote_type,
                    parent_type: found.parent_type,
                },
            ),
        },
    }
}

/// The load sites that the found calls stand for, in their order, or the
/// fault of the first call that stands for none.
pub open spec fn loads_of(found: Seq<RequireView>) -> Result<Seq<LoadSiteView>, Fault>
    decreases found.len(),
{
    if found.len() == 0 {
        Ok(Seq::empty())
    } else {
        match loads_of(found.drop_last()) {
            Err(fault) => Err(fault),
            Ok(loads) => match site_of(found.last()) {
                Err(fault) => Err(fault),
                Ok(site) => Ok(loads.push(site)),
            },
        }
    }
}

/// The load site that a found call stands for, or why it stands for none.
pub fn load_site(visitor: &mut Visitor, found: &Require) -> (r: Result<LoadSite, Fault>)
    ensures
        *final(visitor) == *old(visitor),
        match r {
            Ok(site) => site_of(found@) == Ok::<LoadSiteView, Fault>(site@),
            Err(fault) => site_of(found@) == Err::<LoadSiteView, Fault>(fault),
        },
{
    match get_require_info(visitor, &found.function_call) {
        CallShape::UnsupportedShape(fault) => Err(Fault::Shape(fault)),
        CallShape::Supported { literal, quote_type } => match found.function_call.span {
            None => Err(Fault::Span),
            Some((start, end)) => Ok(
                LoadSite {
                    start,
                    end,
                    argument: literal,
                    quote_type,
                    parent_type: found.parent_type,
                },
            ),
        },
    }
}

/// The load sites at the top level of a script, in source order, or the
/// fault of the first load call that the bundler cannot resolve.
pub fn find_loads(visitor: &mut Visitor, stmts: &Vec<Statement>) -> (r: Result<
    Vec<LoadSite>,
    Fault,
>)
    ensures
        *final(visitor) == *old(visitor),
        match r {
            Ok(loads) => loads_of(call_sites(statements_view(stmts@))) == Ok::<
                Seq<LoadSiteView>,
                Fault,
            >(loads_view(loads@)),
            Err(fault) => loads_of(call_sites(statements_view(stmts@))) == Err::<
                Seq<LoadSiteView>,
                Fault,
            >(fault),
        },
{
    let found = visitor.get_function_calls(stmts);
    let ghost all = sites_view(found@);
    let mut loads: Vec<LoadSite> = Vec::new();
    let mut i: usize = 0;
    assert(loads_view(loads@) =~= Seq::<LoadSiteView>::empty());
    while i < found.len()
        invariant
            i <= found.len(),
            all == sites_view(found@),
            all == call_sites(statements_view(stmts@)),
            loads_of(all.take(i as int)) == Ok::<Seq<LoadSiteView>, Fault>(loads_view(loads@)),
        decreases found.len() - i,
    {
        proof {
            assert(all.take(i + 1).drop_last() =~= all.take(i as int));
            assert(all.take(i + 1).last() == found[i as int]@);
        }
        let ghost before = loads_view(loads@);
        match load_site(visitor, &found[i]) {
            Err(fault) => {
                proof {
                    assert(site_of(all.take(i + 1).last()) == Err::<LoadSiteView, Fault>(fault));
                    assert(loads_of(all.take(i + 1)) == Err::<Seq<LoadSiteView>, Fault>(fault));
                    lemma_fault_stays(all, i + 1, fault);
                }
                return Err(fault);
            },
            Ok(site) => {
                loads.push(site);
                assert(loads_view(loads@) =~= before.push(site@));
            },
        }
        i = i + 1;
    }
    assert(all.take(i as int) =~= all);
    Ok(loads)
}

/// Once a call has a fault, the calls behind it change nothing.
proof fn lemma_fault_stays(found: Seq<RequireView>, k: int, fault: Fault)
    requires
        0 <= k <= found.len(),
        loads_of(found.take(k)) == Err::<Seq<LoadSiteView>, Fault>(fault),
    ensures
        loads_of(found) == Err::<Seq<LoadSiteView>, Fault>(fault),
    decreases found.len() - k,
{
    if k == found.len() {
        assert(found.take(k) =~= found);
    } else {
        assert(found.take(k + 1).drop_last() =~= found.take(k));
        lemma_fault_stays(found, k + 1, fault);
    }
}

/// No call that mentions the load keyword is passed over in silence: where
/// a script has load sites at all, it has one for each such call, in their
/// order; a call that stands for none is a fault of the script.
pub proof fn lemma_no_call_dropped(found: Seq<RequireView>)
    requires
        loads_of(found) is Ok,
    ensures
        loads_of(found)->Ok_0.len() == found.len(),
        forall|k: int|
            0 <= k < found.len() ==> site_of(#[trigger] found[k]) == Ok::<LoadSiteView, Fault>(
                loads_of(found)->Ok_0[k],
            ),
    decreases found.len(),
{
    if found.len() > 0 {
        let front = found.drop_last();
        lemma_no_call_dropped(front);
        assert forall|k: int| 0 <= k < found.len() implies site_of(#[trigger] found[k]) == Ok::<
            LoadSiteView,
            Fault,
        >(loads_of(found)->Ok_0[k]) by {
            if k < front.len() {
                assert(front[k] == found[k]);
            }
        }
    }
}

} // verus!
