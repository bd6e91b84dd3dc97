//! One located, categorized validation failure, and the engine-facing
//! failure type that carries either line errors or an internal error.

use vstd::prelude::*;
use vstd::string::StrSliceExecFns;
use vstd::string::StringExecFns;
use crate::kinds::ErrorKind;
use crate::text::char_pos;
use crate::text::ctx_lookup;
use crate::text::ctx_lookup_from;
use crate::text::lemma_char_pos;
use crate::text::str_eq;
use crate::text::subst;
use crate::value::Value;
use crate::value::ValueV;

verus! {

/// One step of a location path: a mapping key or a sequence index.
#[derive(Debug, PartialEq)]
pub enum LocItem {
    Key(String),
    Index(usize),
}

/// The content of a location step.
#[verifier::ext_equal]
pub ghost enum LocItemV {
    Key(Seq<char>),
    Index(int),
}

impl View for LocItem {
    type V = LocItemV;

    open spec fn view(&self) -> LocItemV {
        match self {
            LocItem::Key(s) => LocItemV::Key(s@),
            LocItem::Index(i) => LocItemV::Index(*i as int),
        }
    }
}

impl Clone for LocItem {
    /// The copy equals the original.
    fn clone(&self) -> (r: Self)
        ensures
            r == *self,
    {
        match self {
            LocItem::Key(s) => LocItem::Key(s.clone()),
            LocItem::Index(i) => LocItem::Index(*i),
        }
    }
}

/// The content of a location path, root to leaf.
pub open spec fn loc_view(l: Seq<LocItem>) -> Seq<LocItemV> {
    Seq::new(l.len(), |i: int| l[i]@)
}

/// An ordered mapping from message-parameter name to value, used to fill
/// placeholders in a message template.
#[derive(Debug, PartialEq)]
pub struct Context {
    pub entries: Vec<(String, String)>,
}

/// The content of a context: name/value pairs in order.
pub open spec fn ctx_view(c: Context) -> Seq<(Seq<char>, Seq<char>)> {
    Seq::new(c.entries@.len(), |i: int| (c.entries@[i].0@, c.entries@[i].1@))
}

impl Context {
    /// An empty context.
    pub fn new() -> (r: Context)
        ensures
            ctx_view(r) == Seq::<(Seq<char>, Seq<char>)>::empty(),
    {
        let r = Context { entries: Vec::new() };
        proof {
            assert(ctx_view(r) =~= Seq::<(Seq<char>, Seq<char>)>::empty());
        }
        r
    }

    /// Whether the context holds no entry.
    pub fn is_empty(&self) -> (r: bool)
        ensures
            r == (ctx_view(*self).len() == 0),
    {
        self.entries.len() == 0
    }

    /// The copy has the same content.
    pub fn duplicate(&self) -> (r: Context)
        ensures
            ctx_view(r) == ctx_view(*self),
    {
        let mut out: Vec<(String, String)> = Vec::new();
        let mut i: usize = 0;
        while i < self.entries.len()
            invariant
                0 <= i <= self.entries@.len(),
                out@.len() == i,
                forall|j: int| 0 <= j < i ==> out@[j] == self.entries@[j],
            decreases self.entries@.len() - i,
        {
            let name = self.entries[i].0.clone();
            let val = self.entries[i].1.clone();
            out.push((name, val));
            i = i + 1;
        }
        let r = Context { entries: out };
        proof {
            assert(ctx_view(r) =~= ctx_view(*self));
        }
        r
    }
}

/// A host-runtime failure unrelated to the shape of the input; it always
/// propagates immediately and is never folded into a validation report.
#[derive(Debug, PartialEq)]
pub struct InternalError {
    pub message: String,
}

/// One validation failure: a kind, a location (empty at creation), an
/// optional message override, the echoed offending value, and a context.
#[derive(Debug)]
pub struct ValLineError {
    pub kind: ErrorKind,
    pub location: Vec<LocItem>,
    pub message: Option<String>,
    pub input_value: Value,
    pub context: Context,
}

/// The content of a line error.
#[verifier::ext_equal]
pub ghost struct LineErrV {
    pub kind: ErrorKind,
    pub location: Seq<LocItemV>,
    pub message: Option<Seq<char>>,
    pub input: ValueV,
    pub context: Seq<(Seq<char>, Seq<char>)>,
}

impl View for ValLineError {
    type V = LineErrV;

    open spec fn view(&self) -> LineErrV {
        LineErrV {
            kind: self.kind,
            location: loc_view(self.location@),
            message: match self.message {
                Some(m) => Some(m@),
                None => None,
            },
            input: self.input_value@,
            context: ctx_view(self.context),
        }
    }
}

/// What a failed validation hands back: line errors to report, or an
/// internal error to propagate untouched.
#[derive(Debug)]
pub enum ValError {
    LineErrors(Vec<ValLineError>),
    InternalErr(InternalError),
}

/// The result of one coercion attempt.
pub type ValResult<T> = Result<T, ValError>;

/// Whether `e` is exactly one line error of the given kind, with the given
/// message override, echoing `input`, with an empty location and context.
pub open spec fn is_single_error(
    e: ValError,
    kind: ErrorKind,
    msg: Option<Seq<char>>,
    input: ValueV,
) -> bool {
    &&& e matches ValError::LineErrors(errs)
    &&& errs@.len() == 1
    &&& errs@[0]@ == (LineErrV {
        kind,
        location: Seq::<LocItemV>::empty(),
        message: msg,
        input,
        context: Seq::<(Seq<char>, Seq<char>)>::empty(),
    })
}

/// Builds the error for one fresh coercion failure: the location starts
/// empty and is filled by enclosing validation frames as it unwinds.
pub fn new_error(kind: ErrorKind, value: Value) -> (r: ValError)
    ensures
        is_single_error(r, kind, None, value@),
{
    let line = ValLineError {
        kind,
        location: Vec::new(),
        message: None,
        input_value: value,
        context: Context::new(),
    };
    proof {
        assert(loc_view(line.location@) =~= Seq::<LocItemV>::empty());
        assert(line@ =~= (LineErrV {
            kind,
            location: Seq::<LocItemV>::empty(),
            message: None,
            input: line.input_value@,
            context: Seq::<(Seq<char>, Seq<char>)>::empty(),
        }));
    }
    let mut errs: Vec<ValLineError> = Vec::new();
    errs.push(line);
    ValError::LineErrors(errs)
}

/// Builds the error for one fresh coercion failure with a message override.
pub fn new_error_msg(kind: ErrorKind, msg: String, value: Value) -> (r: ValError)
    ensures
        is_single_error(r, kind, Some(msg@), value@),
{
    let line = ValLineError {
        kind,
        location: Vec::new(),
        message: Some(msg),
        input_value: value,
        context: Context::new(),
    };
    proof {
        assert(loc_view(line.location@) =~= Seq::<LocItemV>::empty());
        assert(line@ =~= (LineErrV {
            kind,
            location: Seq::<LocItemV>::empty(),
            message: line@.message,
            input: line.input_value@,
            context: Seq::<(Seq<char>, Seq<char>)>::empty(),
        }));
    }
    let mut errs: Vec<ValLineError> = Vec::new();
    errs.push(line);
    ValError::LineErrors(errs)
}


impl Context {
    /// The value bound to `name`: the first entry with that name.
    #[verifier::loop_isolation(false)]
    pub fn lookup(&self, name: &str) -> (r: Option<String>)
        ensures
            match ctx_lookup(ctx_view(*self), name@) {
                Some(v) => r matches Some(o) && o@ == v,
                None => r is None,
            },
    {
        let ghost cv = ctx_view(*self);
        let mut i: usize = 0;
        while i < self.entries.len()
            invariant
                0 <= i <= self.entries@.len(),
                ctx_lookup(cv, name@) == ctx_lookup_from(cv, i as int, name@),
            decreases self.entries@.len() - i,
        {
            if str_eq(self.entries[i].0.as_str(), name) {
                proof {
                    assert(cv[i as int].0 == name@);
                }
                return Some(self.entries[i].1.clone());
            }
            proof {
                assert(cv[i as int].0 != name@);
            }
            i = i + 1;
        }
        None
    }

    /// Renders a message template, replacing each `{name}` group with the
    /// value bound to `name`; unbound groups are kept as they stand, so a
    /// rendering failure never propagates.
    #[verifier::loop_isolation(false)]
    #[verifier::rlimit(60)]
    pub fn render(&self, template: &str) -> (r: String)
        ensures
            r@ == subst(template@, ctx_view(*self)),
    {
        let ghost cv = ctx_view(*self);
        let n = template.unicode_len();
        let mut out = String::new();
        let mut i: usize = 0;
        proof {
            assert(template@.subrange(0, n as int) =~= template@);
            assert(Seq::<char>::empty() + subst(template@, cv) =~= subst(template@, cv));
        }
        while i < n
            invariant
                0 <= i <= n,
                n == template@.len(),
                subst(template@, cv) == out@ + subst(
                    template@.subrange(i as int, n as int),
                    cv,
                ),
            decreases n - i,
        {
            let ghost suffix = template@.subrange(i as int, n as int);
            let ghost pre = out@;
            let c = template.get_char(i);
            proof {
                assert(suffix[0] == template@[i as int]);
            }
            if c == '{' {
                let mut j = i + 1;
                while j < n && template.get_char(j) != '}'
                    invariant
                        i + 1 <= j <= n,
                        forall|k: int| i + 1 <= k < j ==> template@[k] != '}',
                    decreases n - j,
                {
                    j = j + 1;
                }
                proof {
                    assert(forall|m: int| 0 <= m < j - i ==> suffix[m] == template@[m + i]);
                    if j < n {
                        assert(suffix[j - i] == template@[j as int]);
                        lemma_char_pos(suffix, '}', j - i);
                    } else {
                        lemma_char_pos(suffix, '}', suffix.len() as int);
                    }
                }
                if j >= n {
                    out.append(template.substring_char(i, i + 1));
                    proof {
                        assert(suffix.subrange(1, suffix.len() as int) =~= template@.subrange(
                            i + 1,
                            n as int,
                        ));
                        assert(template@.subrange(i as int, i + 1) =~= seq![suffix[0]]);
                        assert(subst(suffix, cv) == seq![suffix[0]] + subst(
                            template@.subrange(i + 1, n as int),
                            cv,
                        ));
                        assert(out@ + subst(template@.subrange(i + 1, n as int), cv) =~= pre
                            + subst(suffix, cv));
                    }
                    i = i + 1;
                } else {
                    let name = template.substring_char(i + 1, j);
                    proof {
                        assert(name@ =~= suffix.subrange(1, j - i));
                        assert(suffix.subrange(j - i + 1, suffix.len() as int)
                            =~= template@.subrange(j + 1, n as int));
                    }
                    match self.lookup(name) {
                        Some(v) => {
                            out.append(v.as_str());
                            proof {
                                assert(subst(suffix, cv) == v@ + subst(
                                    template@.subrange(j + 1, n as int),
                                    cv,
                                ));
                                assert(out@ + subst(template@.subrange(j + 1, n as int), cv)
                                    =~= pre + subst(suffix, cv));
                            }
                        },
                        None => {
                            out.append(template.substring_char(i, j + 1));
                            proof {
                                assert(template@.subrange(i as int, j + 1) =~= suffix.subrange(
                                    0,
                                    j - i + 1,
                                ));
                                assert(subst(suffix, cv) == suffix.subrange(0, j - i + 1) + subst(
                                    template@.subrange(j + 1, n as int),
                                    cv,
                                ));
                                assert(out@ + subst(template@.subrange(j + 1, n as int), cv)
                                    =~= pre + subst(suffix, cv));
                            }
                        },
                    }
                    i = j + 1;
                }
            } else {
                out.append(template.substring_char(i, i + 1));
                proof {
                    assert(suffix.subrange(1, suffix.len() as int) =~= template@.subrange(
                        i + 1,
                        n as int,
                    ));
                    assert(template@.subrange(i as int, i + 1) =~= seq![suffix[0]]);
                    assert(subst(suffix, cv) == seq![suffix[0]] + subst(
                        template@.subrange(i + 1, n as int),
                        cv,
                    ));
                    assert(out@ + subst(template@.subrange(i + 1, n as int), cv) =~= pre + subst(
                        suffix,
                        cv,
                    ));
                }
                i = i + 1;
            }
        }
        proof {
            assert(template@.subrange(n as int, n as int).len() == 0);
            assert(subst(template@.subrange(n as int, n as int), cv) == Seq::<char>::empty());
            assert(out@ =~= subst(template@, cv));
        }
        out
    }
}

} // verus!
