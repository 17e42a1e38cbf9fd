use vstd::prelude::*;
use crate::path::VirtPath;

verus! {

/// A span in a source file: the file it belongs to and the byte offsets
/// `[start, end)` of the spanned text; `via` is the location this one was
/// resolved from, such as the definition a variable reference stands for.
#[derive(Debug, PartialEq)]
pub struct Loc {
    pub file: VirtPath,
    pub start: usize,
    pub end: usize,
    pub via: Option<Box<Loc>>,
}

/// The mathematical content of a `Loc`.
pub struct LocView {
    pub file: crate::path::VirtPathView,
    pub start: usize,
    pub end: usize,
    pub via: Option<Box<LocView>>,
}

impl Loc {
    pub open spec fn view_rec(&self) -> LocView
        decreases self,
    {
        LocView {
            file: self.file@,
            start: self.start,
            end: self.end,
            via: match self.via {
                Some(b) => Some(Box::new(b.view_rec())),
                None => None,
            },
        }
    }
}

impl View for Loc {
    type V = LocView;

    open spec fn view(&self) -> LocView {
        self.view_rec()
    }
}

/// A span with no location it was resolved from.
pub open spec fn span_view(file: crate::path::VirtPathView, start: usize, end: usize) -> LocView {
    LocView { file, start, end, via: None }
}

/// The location of a reference `site` that resolved to `resolved`: the
/// site, resolved via `resolved`; whichever one there is when the other
/// is missing.
pub open spec fn spec_chain(site: Option<LocView>, resolved: Option<LocView>) -> Option<LocView> {
    match site {
        Some(s) => match resolved {
            Some(t) => Some(LocView { file: s.file, start: s.start, end: s.end, via: Some(Box::new(t)) }),
            None => Some(s),
        },
        None => resolved,
    }
}

/// The view of an optional location.
pub open spec fn opt_loc_view(l: Option<Loc>) -> Option<LocView> {
    match l {
        Some(l) => Some(l@),
        None => None,
    }
}

impl Loc {
    pub fn new(file: VirtPath, start: usize, end: usize) -> (r: Loc)
        ensures
            r.file@ == file@,
            r.start == start,
            r.end == end,
            r@ == span_view(file@, start, end),
    {
        Loc { file, start, end, via: None }
    }

    /// A copy of this location.
    pub fn copy(&self) -> (r: Loc)
        ensures
            r@ == self@,
        decreases self,
    {
        let via = match &self.via {
            Some(b) => Some(Box::new(b.copy())),
            None => None,
        };
        Loc { file: self.file.copy(), start: self.start, end: self.end, via }
    }

    /// The location for a reference `site` that resolved to `resolved`,
    /// chained through `via`; whichever one is present when the other is
    /// not (a node made by the evaluator has no location).
    pub fn chain(site: Option<Loc>, resolved: Option<Loc>) -> (r: Option<Loc>)
        ensures
            opt_loc_view(r) == spec_chain(opt_loc_view(site), opt_loc_view(resolved)),
    {
        match site {
            Some(s) => match resolved {
                Some(t) => Some(Loc { file: s.file, start: s.start, end: s.end, via: Some(Box::new(t)) }),
                None => Some(s),
            },
            None => resolved,
        }
    }
}

/// A copy of an optional location.
pub fn copy_loc(loc: &Option<Loc>) -> (r: Option<Loc>)
    ensures
        opt_loc_view(r) == opt_loc_view(*loc),
{
    match loc {
        Some(l) => Some(l.copy()),
        None => None,
    }
}

/// The category of an error.
#[derive(Clone, Copy, Debug, PartialEq, Eq)]
pub enum ErrorType {
    Parse,
    Scope,
    Eval,
    Debug,
    Type,
    DupKey,
    NoValue,
    Custom,
}

impl ErrorType {
    pub open spec fn spec_label(self) -> Seq<char> {
        match self {
            ErrorType::Parse => "Parse error:"@,
            ErrorType::Scope => "Scope error:"@,
            ErrorType::Eval => "Eval error:"@,
            ErrorType::Debug => "Debug:"@,
            ErrorType::Type => "Type error:"@,
            ErrorType::DupKey => "Duplicate key:"@,
            ErrorType::NoValue => "No value:"@,
            ErrorType::Custom => ""@,
        }
    }

    /// The heading an error of this category is shown under.
    pub fn label(&self) -> (r: &'static str)
        ensures
            r@ == self.spec_label(),
    {
        match self {
            ErrorType::Parse => "Parse error:",
            ErrorType::Scope => "Scope error:",
            ErrorType::Eval => "Eval error:",
            ErrorType::Debug => "Debug:",
            ErrorType::Type => "Type error:",
            ErrorType::DupKey => "Duplicate key:",
            ErrorType::NoValue => "No value:",
            ErrorType::Custom => "",
        }
    }
}

/// An error: its category, its message, and the locations it passed through
/// on its way out, innermost first.
#[derive(Debug)]
pub struct Error {
    pub typ: ErrorType,
    pub msg: String,
    pub frames: Vec<Loc>,
}

/// The mathematical content of an `Error`.
pub struct ErrorV {
    pub typ: ErrorType,
    pub msg: Seq<char>,
    pub frames: Seq<LocView>,
}

/// A fresh error with no frames yet.
pub open spec fn err_v(typ: ErrorType, msg: Seq<char>) -> ErrorV {
    ErrorV { typ, msg, frames: Seq::empty() }
}

/// `e` with `loc`, when there is one, recorded as its next frame.
pub open spec fn reref_v(e: ErrorV, loc: Option<LocView>) -> ErrorV {
    match loc {
        Some(l) => ErrorV { frames: e.frames.push(l), ..e },
        None => e,
    }
}

/// `r` with its error, if it is one, rerefed to `loc`.
pub open spec fn reref_res<A>(r: Result<A, ErrorV>, loc: Option<LocView>) -> Result<A, ErrorV> {
    match r {
        Ok(a) => Ok(a),
        Err(e) => Err(reref_v(e, loc)),
    }
}

impl View for Error {
    type V = ErrorV;

    open spec fn view(&self) -> ErrorV {
        ErrorV { typ: self.typ, msg: self.msg@, frames: self.frames_view() }
    }
}

impl Error {
    /// The locations recorded so far.
    pub open spec fn frames_view(&self) -> Seq<LocView> {
        self.frames@.map_values(|l: Loc| l@)
    }

    pub fn new(typ: ErrorType, msg: String) -> (r: Error)
        ensures
            r.typ == typ,
            r.msg@ == msg@,
            r.frames_view() == Seq::<LocView>::empty(),
            r@ == err_v(typ, msg@),
    {
        let r = Error { typ, msg, frames: Vec::new() };
        assert(r.frames_view() =~= Seq::<LocView>::empty());
        r
    }

    /// Records the span `[start, end)` of `file` as the next frame.
    pub fn loc(self, start: usize, end: usize, file: &VirtPath) -> (r: Error)
        ensures
            r.typ == self.typ,
            r.msg@ == self.msg@,
            r.frames_view() == self.frames_view().push(span_view(file@, start, end)),
    {
        let mut out = self;
        out.frames.push(Loc::new(file.copy(), start, end));
        assert(out.frames_view() =~= self.frames_view().push(span_view(file@, start, end)));
        out
    }

    /// Records `loc`, when there is one, as the next frame.
    pub fn reref(self, loc: &Option<Loc>) -> (r: Error)
        ensures
            r.typ == self.typ,
            r.msg@ == self.msg@,
            r.frames_view() == match loc {
                Some(l) => self.frames_view().push(l@),
                None => self.frames_view(),
            },
            r@ == reref_v(self@, opt_loc_view(*loc)),
    {
        let mut out = self;
        if let Some(l) = loc {
            out.frames.push(l.copy());
            assert(out.frames_view() =~= self.frames_view().push(l@));
        }
        out
    }
}

} // verus!
