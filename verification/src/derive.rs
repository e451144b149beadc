//! Planning of the `#[derive(Shape)]` macro.
//!
//! The derive reads the named fields of a struct and, for each field, either
//! generates a pair of setters (`name` and `with_name`, plus `maybe_name` and
//! `with_maybe_name` for `option_fn`), generates nothing, or reports an error.
//! This module decides which, from a plain description of the fields; turning
//! the decision into tokens is left to the macro crate.
use vstd::prelude::*;

verus! {

/// One attribute of a field, as the derive sees it.
#[derive(Debug, PartialEq)]
pub enum FieldAttr {
    /// A doc comment.
    Doc,
    /// `#[local_transform]`
    LocalTransform,
    /// `#[shape(a, b, ..)]`, with the identifiers it lists, or `None` when its
    /// arguments are not a comma separated list of identifiers.
    Shape(Option<Vec<String>>),
    /// Any other attribute.
    Other,
}

/// A named field of the struct that derives `Shape`.
#[derive(Debug, PartialEq)]
pub struct FieldSpec {
    /// Identifier of the field.
    pub name: String,
    /// Attributes of the field, in order.
    pub attrs: Vec<FieldAttr>,
    /// Whether the field's type is a path whose first segment has a type as
    /// its first generic argument (`Option<T>` gives `T`).
    pub has_inner_type: bool,
}

/// The arguments that `#[shape(..)]` accepts.
#[derive(Debug, Clone, Copy, PartialEq, Eq, Structural)]
pub enum ShapeFlag {
    Skip,
    Into,
    Bool,
    AsSome,
    OptionFn,
}

/// Position of an identifier inside the attributes of a field:
/// the index of the attribute, then the index of the identifier in it.
#[derive(Debug, Clone, Copy, PartialEq, Eq, Structural)]
pub struct ArgPos {
    pub attr: usize,
    pub arg: usize,
}

/// Why a field cannot get its setters. Positions tell where to report it.
#[derive(Debug, Clone, Copy, PartialEq, Eq, Structural)]
pub enum FieldError {
    /// A second field is marked `#[local_transform]`; reported at the first one,
    /// whose index is given.
    DuplicateLocalTransform { first_field: usize },
    /// The arguments of the `shape` attribute at this index are not a list of identifiers.
    MalformedShapeArgs { attr: usize },
    /// An identifier that is none of the accepted arguments.
    UnknownArg { pos: ArgPos },
    /// `skip` together with another argument.
    SkipWithOthers { skip: ArgPos },
    /// `bool` together with `into` or `some`.
    BoolWithIntoOrSome { bool_pos: ArgPos },
    /// `some` (or `option_fn` with `into`) on a field whose type gives no inner type.
    NotSupported { pos: ArgPos },
}

/// The kind of a generated setter pair.
#[derive(Debug, Clone, Copy, PartialEq, Eq, Structural)]
pub enum SetterKind {
    /// `fn name(&mut self, value: Ty)` sets the field.
    Plain,
    /// `fn name(&mut self)` sets the field to `true`.
    Flag,
    /// `fn name<T: Into<Ty>>(&mut self, value: T)` sets the field to `value.into()`.
    Into,
    /// `fn name(&mut self, value: Inner)` sets the field to `Some(value)`.
    SetSome,
    /// `fn name<T: Into<Inner>>(&mut self, value: T)` sets the field to `Some(value.into())`.
    IntoSome,
    /// `fn maybe_name(&mut self, value: Ty)` sets the field.
    MaybePlain,
    /// `fn maybe_name<T: Into<Inner>>(&mut self, value: Option<T>)` sets the field to `value.map(Into::into)`.
    MaybeInto,
}

/// A setter and its chaining twin (`with_` + setter name).
#[derive(Debug, PartialEq)]
pub struct SetterPair {
    pub kind: SetterKind,
    pub name: String,
    pub with_name: String,
}

/// What the derive produces for one field.
#[derive(Debug, PartialEq)]
pub enum FieldOutcome {
    /// No method.
    Omitted,
    /// A compile error.
    Failed(FieldError),
    /// Setters, documented by the doc attribute at index `doc`, if any.
    Generated { setters: SetterPair, maybe: Option<SetterPair>, doc: Option<usize> },
}

/// The whole derive: the outcome of each field, in order, and the field, if
/// any, that holds the local transform (then `ShapeOp` is implemented on it).
#[derive(Debug, PartialEq)]
pub struct DerivePlan {
    pub fields: Vec<FieldOutcome>,
    pub local_transform: Option<usize>,
}

// ---------------------------------------------------------------------------
// Mathematical model
// ---------------------------------------------------------------------------

/// Setter pair over sequences of characters.
pub struct SetterPairView {
    pub kind: SetterKind,
    pub name: Seq<char>,
    pub with_name: Seq<char>,
}

pub enum FieldOutcomeView {
    Omitted,
    Failed(FieldError),
    Generated { setters: SetterPairView, maybe: Option<SetterPairView>, doc: Option<usize> },
}

impl View for SetterPair {
    type V = SetterPairView;

    open spec fn view(&self) -> SetterPairView {
        SetterPairView { kind: self.kind, name: self.name@, with_name: self.with_name@ }
    }
}

pub open spec fn opt_pair_view(p: Option<SetterPair>) -> Option<SetterPairView> {
    match p {
        Option::Some(q) => Option::Some(q@),
        Option::None => Option::None,
    }
}

impl View for FieldOutcome {
    type V = FieldOutcomeView;

    open spec fn view(&self) -> FieldOutcomeView {
        match self {
            FieldOutcome::Omitted => FieldOutcomeView::Omitted,
            FieldOutcome::Failed(e) => FieldOutcomeView::Failed(*e),
            FieldOutcome::Generated { setters, maybe, doc } => FieldOutcomeView::Generated {
                setters: setters@,
                maybe: opt_pair_view(*maybe),
                doc: *doc,
            },
        }
    }
}

/// The flag an identifier names, if any.
pub open spec fn flag_of(name: Seq<char>) -> Option<ShapeFlag> {
    if name == "skip"@ {
        Option::Some(ShapeFlag::Skip)
    } else if name == "into"@ {
        Option::Some(ShapeFlag::Into)
    } else if name == "bool"@ {
        Option::Some(ShapeFlag::Bool)
    } else if name == "some"@ {
        Option::Some(ShapeFlag::AsSome)
    } else if name == "option_fn"@ {
        Option::Some(ShapeFlag::OptionFn)
    } else {
        Option::None
    }
}

/// Index of the first identifier of `ids` that names no flag.
pub open spec fn first_unknown(ids: Seq<String>) -> Option<int>
    decreases ids.len(),
{
    if ids.len() == 0 {
        Option::None
    } else {
        match first_unknown(ids.drop_last()) {
            Option::Some(j) => Option::Some(j),
            Option::None => if flag_of(ids.last()@) is None {
                Option::Some(ids.len() - 1)
            } else {
                Option::None
            },
        }
    }
}

/// Whether processing stops at this attribute (a `local_transform`, or a
/// `shape` attribute that cannot be read).
pub open spec fn stops_at(a: FieldAttr) -> bool {
    match a {
        FieldAttr::LocalTransform => true,
        FieldAttr::Shape(Option::None) => true,
        FieldAttr::Shape(Option::Some(ids)) => first_unknown(ids@) is Some,
        _ => false,
    }
}

/// Index of the first attribute at which processing stops.
pub open spec fn first_stop(attrs: Seq<FieldAttr>) -> Option<int>
    decreases attrs.len(),
{
    if attrs.len() == 0 {
        Option::None
    } else {
        match first_stop(attrs.drop_last()) {
            Option::Some(k) => Option::Some(k),
            Option::None => if stops_at(attrs.last()) {
                Option::Some(attrs.len() - 1)
            } else {
                Option::None
            },
        }
    }
}

/// Index of the last identifier of `ids` that names `f`.
pub open spec fn last_in_args(ids: Seq<String>, f: ShapeFlag) -> Option<int>
    decreases ids.len(),
{
    if ids.len() == 0 {
        Option::None
    } else if flag_of(ids.last()@) == Option::Some(f) {
        Option::Some(ids.len() - 1)
    } else {
        last_in_args(ids.drop_last(), f)
    }
}

/// Position of the last occurrence of `f` in the `shape` attributes.
pub open spec fn last_flag(attrs: Seq<FieldAttr>, f: ShapeFlag) -> Option<ArgPos>
    decreases attrs.len(),
{
    if attrs.len() == 0 {
        Option::None
    } else {
        let rest = last_flag(attrs.drop_last(), f);
        match attrs.last() {
            FieldAttr::Shape(Option::Some(ids)) => match last_in_args(ids@, f) {
                Option::Some(j) => Option::Some(ArgPos { attr: (attrs.len() - 1) as usize, arg: j as usize }),
                Option::None => rest,
            },
            _ => rest,
        }
    }
}

/// Index of the last doc attribute.
pub open spec fn last_doc(attrs: Seq<FieldAttr>) -> Option<usize>
    decreases attrs.len(),
{
    if attrs.len() == 0 {
        Option::None
    } else if attrs.last() is Doc {
        Option::Some((attrs.len() - 1) as usize)
    } else {
        last_doc(attrs.drop_last())
    }
}

pub open spec fn with_name(name: Seq<char>) -> Seq<char> {
    "with_"@ + name
}

pub open spec fn maybe_name(name: Seq<char>) -> Seq<char> {
    "maybe_"@ + name
}

pub open spec fn pair(kind: SetterKind, name: Seq<char>) -> SetterPairView {
    SetterPairView { kind, name, with_name: with_name(name) }
}

/// The setters of a field whose attributes were all read, from the flags it carries.
pub open spec fn setters_outcome(f: FieldSpec) -> FieldOutcomeView {
    let attrs = f.attrs@;
    let name = f.name@;
    let skip = last_flag(attrs, ShapeFlag::Skip);
    let into = last_flag(attrs, ShapeFlag::Into);
    let boolean = last_flag(attrs, ShapeFlag::Bool);
    let some = last_flag(attrs, ShapeFlag::AsSome);
    let option_fn = last_flag(attrs, ShapeFlag::OptionFn);
    let doc = last_doc(attrs);
    if skip is Some {
        if into is Some || boolean is Some || some is Some || option_fn is Some {
            FieldOutcomeView::Failed(FieldError::SkipWithOthers { skip: skip.unwrap() })
        } else {
            FieldOutcomeView::Omitted
        }
    } else if boolean is Some && (into is Some || some is Some) {
        FieldOutcomeView::Failed(FieldError::BoolWithIntoOrSome { bool_pos: boolean.unwrap() })
    } else if some is Some && !f.has_inner_type {
        FieldOutcomeView::Failed(FieldError::NotSupported { pos: some.unwrap() })
    } else if option_fn is Some && into is Some && !f.has_inner_type {
        FieldOutcomeView::Failed(FieldError::NotSupported { pos: option_fn.unwrap() })
    } else {
        let kind = if boolean is Some {
            SetterKind::Flag
        } else if into is Some && some is Some {
            SetterKind::IntoSome
        } else if into is Some {
            SetterKind::Into
        } else if some is Some {
            SetterKind::SetSome
        } else {
            SetterKind::Plain
        };
        let maybe = if option_fn is Some {
            Option::Some(pair(
                if into is Some { SetterKind::MaybeInto } else { SetterKind::MaybePlain },
                maybe_name(name),
            ))
        } else {
            Option::None
        };
        FieldOutcomeView::Generated { setters: pair(kind, name), maybe, doc }
    }
}

/// Outcome of a field, given the index of the field that already holds the
/// local transform, if any.
pub open spec fn field_outcome(f: FieldSpec, lt: Option<usize>) -> FieldOutcomeView {
    let attrs = f.attrs@;
    match first_stop(attrs) {
        Option::Some(k) => match attrs[k] {
            FieldAttr::LocalTransform => match lt {
                Option::Some(first) => FieldOutcomeView::Failed(
                    FieldError::DuplicateLocalTransform { first_field: first },
                ),
                Option::None => FieldOutcomeView::Omitted,
            },
            FieldAttr::Shape(Option::Some(ids)) => FieldOutcomeView::Failed(
                FieldError::UnknownArg {
                    pos: ArgPos { attr: k as usize, arg: first_unknown(ids@).unwrap() as usize },
                },
            ),
            _ => FieldOutcomeView::Failed(FieldError::MalformedShapeArgs { attr: k as usize }),
        },
        Option::None => setters_outcome(f),
    }
}

/// Whether this field becomes the local transform.
pub open spec fn takes_local_transform(f: FieldSpec, lt: Option<usize>) -> bool {
    match first_stop(f.attrs@) {
        Option::Some(k) => f.attrs@[k] is LocalTransform && lt is None,
        Option::None => false,
    }
}

/// The local transform after the fields of `fields`.
pub open spec fn local_transform_of(fields: Seq<FieldSpec>) -> Option<usize>
    decreases fields.len(),
{
    if fields.len() == 0 {
        Option::None
    } else {
        let before = local_transform_of(fields.drop_last());
        if takes_local_transform(fields.last(), before) {
            Option::Some((fields.len() - 1) as usize)
        } else {
            before
        }
    }
}

/// The outcome of field `i` of `fields`.
pub open spec fn outcome_at(fields: Seq<FieldSpec>, i: int) -> FieldOutcomeView {
    field_outcome(fields[i], local_transform_of(fields.take(i)))
}

// ---------------------------------------------------------------------------
// Implementation
// ---------------------------------------------------------------------------

fn str_is(s: &String, lit: &str) -> (r: bool)
    ensures
        r == (s@ == lit@),
{
    let t = String::from_str(lit);
    *s == t
}

/// The flag an identifier names, if any.
pub fn flag_from_name(name: &String) -> (r: Option<ShapeFlag>)
    ensures
        r == flag_of(name@),
{
    if str_is(name, "skip") {
        Some(ShapeFlag::Skip)
    } else if str_is(name, "into") {
        Some(ShapeFlag::Into)
    } else if str_is(name, "bool") {
        Some(ShapeFlag::Bool)
    } else if str_is(name, "some") {
        Some(ShapeFlag::AsSome)
    } else if str_is(name, "option_fn") {
        Some(ShapeFlag::OptionFn)
    } else {
        None
    }
}

fn concat(prefix: &str, name: &String) -> (r: String)
    ensures
        r@ == prefix@ + name@,
{
    let s = String::from_str(prefix);
    s.concat(name.as_str())
}

fn make_pair(kind: SetterKind, name: String) -> (r: SetterPair)
    ensures
        r@ == pair(kind, name@),
{
    let with_name = concat("with_", &name);
    SetterPair { kind, name, with_name }
}

/// Last occurrences of each flag, and of a doc attribute, over a prefix of attributes.
struct Scan {
    skip: Option<ArgPos>,
    into: Option<ArgPos>,
    boolean: Option<ArgPos>,
    some: Option<ArgPos>,
    option_fn: Option<ArgPos>,
    doc: Option<usize>,
}

spec fn scan_matches(s: Scan, attrs: Seq<FieldAttr>) -> bool {
    &&& s.skip == last_flag(attrs, ShapeFlag::Skip)
    &&& s.into == last_flag(attrs, ShapeFlag::Into)
    &&& s.boolean == last_flag(attrs, ShapeFlag::Bool)
    &&& s.some == last_flag(attrs, ShapeFlag::AsSome)
    &&& s.option_fn == last_flag(attrs, ShapeFlag::OptionFn)
    &&& s.doc == last_doc(attrs)
}

spec fn opt_usize(o: Option<int>) -> Option<usize> {
    match o {
        Option::Some(j) => Option::Some(j as usize),
        Option::None => Option::None,
    }
}

/// Reads the identifiers of one `shape` attribute, at index `attr`, into the scan.
/// Returns the index of the first unknown identifier, if there is one.
fn scan_args(ids: &Vec<String>, attr: usize, scan: &mut Scan) -> (r: Option<usize>)
    ensures
        r == opt_usize(first_unknown(ids@)),
        r is None ==> {
            forall|f: ShapeFlag| #[trigger] last_in_args(ids@, f) is Some ==>
                flag_pos(*final(scan), f) == Option::Some(ArgPos { attr, arg: last_in_args(ids@, f).unwrap() as usize })
        },
        r is None ==> {
            forall|f: ShapeFlag| #[trigger] last_in_args(ids@, f) is None ==>
                flag_pos(*final(scan), f) == flag_pos(*old(scan), f)
        },
        final(scan).doc == old(scan).doc,
{
    let mut i: usize = 0;
    let ghost s0 = *scan;
    while i < ids.len()
        invariant
            i <= ids.len(),
            first_unknown(ids@.take(i as int)) is None,
            forall|f: ShapeFlag| #[trigger] last_in_args(ids@.take(i as int), f) is Some ==>
                flag_pos(*scan, f) == Option::Some(ArgPos { attr, arg: last_in_args(ids@.take(i as int), f).unwrap() as usize }),
            forall|f: ShapeFlag| #[trigger] last_in_args(ids@.take(i as int), f) is None ==>
                flag_pos(*scan, f) == flag_pos(s0, f),
            scan.doc == s0.doc,
            s0 == *old(scan),
        decreases ids.len() - i,
    {
        let ghost prev = ids@.take(i as int);
        let ghost next = ids@.take(i as int + 1);
        assert(next.drop_last() =~= prev);
        assert(next.last() == ids@[i as int]);
        let pos = ArgPos { attr, arg: i };
        match flag_from_name(&ids[i]) {
            None => {
                assert(first_unknown(next) == Option::Some(i as int));
                proof {
                    lemma_first_unknown_prefix(ids@, i as int + 1);
                }
                return Some(i);
            },
            Some(ShapeFlag::Skip) => { scan.skip = Some(pos); },
            Some(ShapeFlag::Into) => { scan.into = Some(pos); },
            Some(ShapeFlag::Bool) => { scan.boolean = Some(pos); },
            Some(ShapeFlag::AsSome) => { scan.some = Some(pos); },
            Some(ShapeFlag::OptionFn) => { scan.option_fn = Some(pos); },
        }
        assert forall|f: ShapeFlag| #[trigger] last_in_args(next, f) is Some implies
            flag_pos(*scan, f) == Option::Some(ArgPos { attr, arg: last_in_args(next, f).unwrap() as usize }) by {
            if flag_of(next.last()@) != Option::Some(f) {
                assert(last_in_args(next, f) == last_in_args(prev, f));
            }
        }
        assert forall|f: ShapeFlag| #[trigger] last_in_args(next, f) is None implies
            flag_pos(*scan, f) == flag_pos(s0, f) by {
            assert(last_in_args(next, f) == last_in_args(prev, f));
        }
        i = i + 1;
    }
    assert(ids@.take(ids@.len() as int) =~= ids@);
    None
}

spec fn flag_pos(s: Scan, f: ShapeFlag) -> Option<ArgPos> {
    match f {
        ShapeFlag::Skip => s.skip,
        ShapeFlag::Into => s.into,
        ShapeFlag::Bool => s.boolean,
        ShapeFlag::AsSome => s.some,
        ShapeFlag::OptionFn => s.option_fn,
    }
}

/// Once an unknown identifier is found in a prefix, it is the first one of the whole list.
proof fn lemma_first_unknown_prefix(ids: Seq<String>, n: int)
    requires
        0 <= n <= ids.len(),
        first_unknown(ids.take(n)) is Some,
    ensures
        first_unknown(ids) == first_unknown(ids.take(n)),
    decreases ids.len() - n,
{
    if n < ids.len() {
        let next = ids.take(n + 1);
        assert(next.drop_last() =~= ids.take(n));
        lemma_first_unknown_prefix(ids, n + 1);
    } else {
        assert(ids.take(n) =~= ids);
    }
}

/// Once processing stops in a prefix, it stops at the same attribute in the whole list.
proof fn lemma_first_stop_prefix(attrs: Seq<FieldAttr>, n: int)
    requires
        0 <= n <= attrs.len(),
        first_stop(attrs.take(n)) is Some,
    ensures
        first_stop(attrs) == first_stop(attrs.take(n)),
    decreases attrs.len() - n,
{
    if n < attrs.len() {
        let next = attrs.take(n + 1);
        assert(next.drop_last() =~= attrs.take(n));
        lemma_first_stop_prefix(attrs, n + 1);
    } else {
        assert(attrs.take(n) =~= attrs);
    }
}

/// The outcome of one field, given the field holding the local transform so far.
pub fn plan_field(f: &FieldSpec, lt: Option<usize>) -> (r: FieldOutcome)
    ensures
        r@ == field_outcome(*f, lt),
{
    let attrs = &f.attrs;
    let mut scan = Scan { skip: None, into: None, boolean: None, some: None, option_fn: None, doc: None };
    let mut k: usize = 0;
    while k < attrs.len()
        invariant
            k <= attrs.len(),
            attrs@ == f.attrs@,
            first_stop(attrs@.take(k as int)) is None,
            scan_matches(scan, attrs@.take(k as int)),
        decreases attrs.len() - k,
    {
        let ghost prev = attrs@.take(k as int);
        let ghost next = attrs@.take(k as int + 1);
        assert(next.drop_last() =~= prev);
        assert(next.last() == attrs@[k as int]);
        match &attrs[k] {
            FieldAttr::Doc => {
                scan.doc = Some(k);
            },
            FieldAttr::LocalTransform => {
                proof {
                    lemma_first_stop_prefix(attrs@, k as int + 1);
                }
                return match lt {
                    Some(first) => FieldOutcome::Failed(FieldError::DuplicateLocalTransform { first_field: first }),
                    None => FieldOutcome::Omitted,
                };
            },
            FieldAttr::Shape(None) => {
                proof {
                    lemma_first_stop_prefix(attrs@, k as int + 1);
                }
                return FieldOutcome::Failed(FieldError::MalformedShapeArgs { attr: k });
            },
            FieldAttr::Shape(Some(ids)) => {
                let ghost before = scan;
                match scan_args(ids, k, &mut scan) {
                    Some(j) => {
                        proof {
                            lemma_first_stop_prefix(attrs@, k as int + 1);
                        }
                        return FieldOutcome::Failed(FieldError::UnknownArg { pos: ArgPos { attr: k, arg: j } });
                    },
                    None => {
                        assert(forall|fl: ShapeFlag| #[trigger] last_flag(next, fl) == flag_pos(scan, fl)) by {
                            assert forall|fl: ShapeFlag| #[trigger] last_flag(next, fl) == flag_pos(scan, fl) by {
                                if last_in_args(ids@, fl) is Some {
                                } else {
                                    assert(flag_pos(before, fl) == last_flag(prev, fl));
                                }
                            }
                        }
                        assert(scan.skip == last_flag(next, ShapeFlag::Skip));
                        assert(scan.into == last_flag(next, ShapeFlag::Into));
                        assert(scan.boolean == last_flag(next, ShapeFlag::Bool));
                        assert(scan.some == last_flag(next, ShapeFlag::AsSome));
                        assert(scan.option_fn == last_flag(next, ShapeFlag::OptionFn));
                    },
                }
            },
            FieldAttr::Other => {},
        }
        k = k + 1;
    }
    assert(attrs@.take(attrs@.len() as int) =~= attrs@);
    let name = f.name.clone();
    if let Some(skip) = scan.skip {
        if scan.into.is_some() || scan.boolean.is_some() || scan.some.is_some() || scan.option_fn.is_some() {
            return FieldOutcome::Failed(FieldError::SkipWithOthers { skip });
        }
        return FieldOutcome::Omitted;
    }
    if let Some(bool_pos) = scan.boolean {
        if scan.into.is_some() || scan.some.is_some() {
            return FieldOutcome::Failed(FieldError::BoolWithIntoOrSome { bool_pos });
        }
    }
    if let Some(pos) = scan.some {
        if !f.has_inner_type {
            return FieldOutcome::Failed(FieldError::NotSupported { pos });
        }
    }
    if let Some(pos) = scan.option_fn {
        if scan.into.is_some() && !f.has_inner_type {
            return FieldOutcome::Failed(FieldError::NotSupported { pos });
        }
    }
    let kind = if scan.boolean.is_some() {
        SetterKind::Flag
    } else if scan.into.is_some() && scan.some.is_some() {
        SetterKind::IntoSome
    } else if scan.into.is_some() {
        SetterKind::Into
    } else if scan.some.is_some() {
        SetterKind::SetSome
    } else {
        SetterKind::Plain
    };
    let maybe = if scan.option_fn.is_some() {
        let maybe_kind = if scan.into.is_some() { SetterKind::MaybeInto } else { SetterKind::MaybePlain };
        Some(make_pair(maybe_kind, concat("maybe_", &name)))
    } else {
        None
    };
    let setters = make_pair(kind, name);
    FieldOutcome::Generated { setters, maybe, doc: scan.doc }
}

/// Plans the derive for all the fields of a struct, in order.
pub fn plan_shape(fields: &Vec<FieldSpec>) -> (r: DerivePlan)
    ensures
        r.fields.len() == fields.len(),
        forall|i: int| 0 <= i < fields.len() ==> #[trigger] r.fields@[i]@ == outcome_at(fields@, i),
        r.local_transform == local_transform_of(fields@),
{
    let mut out: Vec<FieldOutcome> = Vec::new();
    let mut lt: Option<usize> = None;
    let mut i: usize = 0;
    while i < fields.len()
        invariant
            i <= fields.len(),
            out.len() == i,
            lt == local_transform_of(fields@.take(i as int)),
            forall|j: int| 0 <= j < i ==> #[trigger] out@[j]@ == outcome_at(fields@, j),
        decreases fields.len() - i,
    {
        let ghost next = fields@.take(i as int + 1);
        assert(next.drop_last() =~= fields@.take(i as int));
        assert(next.last() == fields@[i as int]);
        let outcome = plan_field(&fields[i], lt);
        proof {
            reveal_with_fuel(local_transform_of, 1);
        }
        if takes_local_transform_exec(&fields[i], lt) {
            lt = Some(i);
        }
        out.push(outcome);
        i = i + 1;
    }
    assert(fields@.take(fields@.len() as int) =~= fields@);
    DerivePlan { fields: out, local_transform: lt }
}

/// Whether the field becomes the local transform: its first stopping
/// attribute is `local_transform` and no earlier field took it.
fn takes_local_transform_exec(f: &FieldSpec, lt: Option<usize>) -> (r: bool)
    ensures
        r == takes_local_transform(*f, lt),
{
    let attrs = &f.attrs;
    let mut k: usize = 0;
    while k < attrs.len()
        invariant
            k <= attrs.len(),
            attrs@ == f.attrs@,
            first_stop(attrs@.take(k as int)) is None,
        decreases attrs.len() - k,
    {
        let ghost next = attrs@.take(k as int + 1);
        assert(next.drop_last() =~= attrs@.take(k as int));
        assert(next.last() == attrs@[k as int]);
        let stops = match &attrs[k] {
            FieldAttr::LocalTransform => true,
            FieldAttr::Shape(None) => true,
            FieldAttr::Shape(Some(ids)) => has_unknown(ids),
            _ => false,
        };
        if stops {
            proof {
                lemma_first_stop_prefix(attrs@, k as int + 1);
            }
            return match &attrs[k] {
                FieldAttr::LocalTransform => lt.is_none(),
                _ => false,
            };
        }
        k = k + 1;
    }
    assert(attrs@.take(attrs@.len() as int) =~= attrs@);
    false
}

fn has_unknown(ids: &Vec<String>) -> (r: bool)
    ensures
        r == (first_unknown(ids@) is Some),
{
    let mut i: usize = 0;
    while i < ids.len()
        invariant
            i <= ids.len(),
            first_unknown(ids@.take(i as int)) is None,
        decreases ids.len() - i,
    {
        let ghost next = ids@.take(i as int + 1);
        assert(next.drop_last() =~= ids@.take(i as int));
        assert(next.last() == ids@[i as int]);
        if flag_from_name(&ids[i]).is_none() {
            proof {
                lemma_first_unknown_prefix(ids@, i as int + 1);
            }
            return true;
        }
        i = i + 1;
    }
    assert(ids@.take(ids@.len() as int) =~= ids@);
    false
}

} // verus!

verus! {

// ---------------------------------------------------------------------------
// The internal derive, the one of the `dessin` crate's own macro crate.
// It knows `skip`, `into` and `bool`, ignores other identifiers,
// and marks a `local_transform` field as skipped.
// ---------------------------------------------------------------------------

/// Number of `local_transform` attributes in a list of attributes.
pub open spec fn lt_count(attrs: Seq<FieldAttr>) -> nat
    decreases attrs.len(),
{
    if attrs.len() == 0 {
        0
    } else {
        lt_count(attrs.drop_last()) + if attrs.last() is LocalTransform { 1nat } else { 0nat }
    }
}

/// Number of `local_transform` attributes over all fields.
pub open spec fn total_lt_count(fields: Seq<FieldSpec>) -> nat
    decreases fields.len(),
{
    if fields.len() == 0 {
        0
    } else {
        total_lt_count(fields.drop_last()) + lt_count(fields.last().attrs@)
    }
}

/// The inputs on which the internal derive does not panic:
/// every `shape` attribute is readable and at most one `local_transform` is given.
pub open spec fn legacy_accepts(fields: Seq<FieldSpec>) -> bool {
    &&& total_lt_count(fields) <= 1
    &&& forall|i: int, k: int|
        0 <= i < fields.len() && 0 <= k < fields[i].attrs@.len() ==>
            !(#[trigger] fields[i].attrs@[k] matches FieldAttr::Shape(Option::None))
}

pub open spec fn has_flag(attrs: Seq<FieldAttr>, f: ShapeFlag) -> bool {
    last_flag(attrs, f) is Some
}

/// Outcome of a field in the internal derive.
pub open spec fn legacy_outcome(f: FieldSpec) -> FieldOutcomeView {
    let attrs = f.attrs@;
    if lt_count(attrs) > 0 || has_flag(attrs, ShapeFlag::Skip) {
        FieldOutcomeView::Omitted
    } else {
        let kind = if has_flag(attrs, ShapeFlag::Bool) {
            SetterKind::Flag
        } else if has_flag(attrs, ShapeFlag::Into) {
            SetterKind::Into
        } else {
            SetterKind::Plain
        };
        FieldOutcomeView::Generated { setters: pair(kind, f.name@), maybe: Option::None, doc: Option::None }
    }
}

/// The field that carries `local_transform`, in the internal derive.
pub open spec fn legacy_local_transform(fields: Seq<FieldSpec>) -> Option<usize>
    decreases fields.len(),
{
    if fields.len() == 0 {
        Option::None
    } else if lt_count(fields.last().attrs@) > 0 {
        Option::Some((fields.len() - 1) as usize)
    } else {
        legacy_local_transform(fields.drop_last())
    }
}

/// Flags present, and `local_transform` attributes counted, over one field.
fn legacy_scan(f: &FieldSpec) -> (r: (usize, bool, bool, bool))
    requires
        forall|k: int| 0 <= k < f.attrs@.len() ==> !(#[trigger] f.attrs@[k] matches FieldAttr::Shape(Option::None)),
    ensures
        r.0 == lt_count(f.attrs@),
        r.1 == has_flag(f.attrs@, ShapeFlag::Skip),
        r.2 == has_flag(f.attrs@, ShapeFlag::Into),
        r.3 == has_flag(f.attrs@, ShapeFlag::Bool),
{
    let attrs = &f.attrs;
    let mut count: usize = 0;
    let mut scan = Scan { skip: None, into: None, boolean: None, some: None, option_fn: None, doc: None };
    let mut k: usize = 0;
    while k < attrs.len()
        invariant
            k <= attrs.len(),
            attrs@ == f.attrs@,
            forall|q: int| 0 <= q < attrs@.len() ==> !(#[trigger] attrs@[q] matches FieldAttr::Shape(Option::None)),
            count == lt_count(attrs@.take(k as int)),
            count <= k,
            forall|fl: ShapeFlag| (#[trigger] flag_pos(scan, fl) is Some) == has_flag(attrs@.take(k as int), fl),
        decreases attrs.len() - k,
    {
        let ghost prev = attrs@.take(k as int);
        let ghost next = attrs@.take(k as int + 1);
        assert(next.drop_last() =~= prev);
        assert(next.last() == attrs@[k as int]);
        let ghost before = scan;
        match &attrs[k] {
            FieldAttr::LocalTransform => {
                count = count + 1;
            },
            FieldAttr::Shape(Some(ids)) => {
                legacy_scan_args(ids, k, &mut scan);
            },
            _ => {},
        }
        assert forall|fl: ShapeFlag| (#[trigger] flag_pos(scan, fl) is Some) == has_flag(next, fl) by {
            match attrs@[k as int] {
                FieldAttr::Shape(Option::Some(ids)) => {
                    if last_in_args(ids@, fl) is None {
                        assert(last_flag(next, fl) == last_flag(prev, fl));
                    }
                },
                _ => {
                    assert(last_flag(next, fl) == last_flag(prev, fl));
                },
            }
        }
        k = k + 1;
    }
    assert(attrs@.take(attrs@.len() as int) =~= attrs@);
    assert(flag_pos(scan, ShapeFlag::Skip) == scan.skip);
    assert(flag_pos(scan, ShapeFlag::Into) == scan.into);
    assert(flag_pos(scan, ShapeFlag::Bool) == scan.boolean);
    (count, scan.skip.is_some(), scan.into.is_some(), scan.boolean.is_some())
}

/// Records the known identifiers of one `shape` attribute; unknown ones are ignored.
fn legacy_scan_args(ids: &Vec<String>, attr: usize, scan: &mut Scan)
    ensures
        forall|f: ShapeFlag| #[trigger] last_in_args(ids@, f) is Some ==>
            flag_pos(*final(scan), f) is Some,
        forall|f: ShapeFlag| #[trigger] last_in_args(ids@, f) is None ==>
            flag_pos(*final(scan), f) == flag_pos(*old(scan), f),
{
    let mut i: usize = 0;
    let ghost s0 = *scan;
    while i < ids.len()
        invariant
            i <= ids.len(),
            s0 == *old(scan),
            forall|f: ShapeFlag| #[trigger] last_in_args(ids@.take(i as int), f) is Some ==>
                flag_pos(*scan, f) is Some,
            forall|f: ShapeFlag| #[trigger] last_in_args(ids@.take(i as int), f) is None ==>
                flag_pos(*scan, f) == flag_pos(s0, f),
        decreases ids.len() - i,
    {
        let ghost prev = ids@.take(i as int);
        let ghost next = ids@.take(i as int + 1);
        assert(next.drop_last() =~= prev);
        assert(next.last() == ids@[i as int]);
        let pos = ArgPos { attr, arg: i };
        match flag_from_name(&ids[i]) {
            Some(ShapeFlag::Skip) => { scan.skip = Some(pos); },
            Some(ShapeFlag::Into) => { scan.into = Some(pos); },
            Some(ShapeFlag::Bool) => { scan.boolean = Some(pos); },
            Some(ShapeFlag::AsSome) => { scan.some = Some(pos); },
            Some(ShapeFlag::OptionFn) => { scan.option_fn = Some(pos); },
            None => {},
        }
        assert forall|f: ShapeFlag| #[trigger] last_in_args(next, f) is Some implies flag_pos(*scan, f) is Some by {
            if flag_of(next.last()@) != Option::Some(f) {
                assert(last_in_args(next, f) == last_in_args(prev, f));
            }
        }
        assert forall|f: ShapeFlag| #[trigger] last_in_args(next, f) is None implies
            flag_pos(*scan, f) == flag_pos(s0, f) by {
            assert(last_in_args(next, f) == last_in_args(prev, f));
        }
        i = i + 1;
    }
    assert(ids@.take(ids@.len() as int) =~= ids@);
}

/// Whether the internal derive accepts these fields (it panics otherwise).
pub fn legacy_fields_accepted(fields: &Vec<FieldSpec>) -> (r: bool)
    ensures
        r == legacy_accepts(fields@),
{
    let mut total: usize = 0;
    let mut i: usize = 0;
    while i < fields.len()
        invariant
            i <= fields.len(),
            total == total_lt_count(fields@.take(i as int)),
            total <= 1,
            forall|p: int, k: int|
                0 <= p < i && 0 <= k < fields@[p].attrs@.len() ==>
                    !(#[trigger] fields@[p].attrs@[k] matches FieldAttr::Shape(Option::None)),
        decreases fields.len() - i,
    {
        let ghost next = fields@.take(i as int + 1);
        assert(next.drop_last() =~= fields@.take(i as int));
        assert(next.last() == fields@[i as int]);
        let attrs = &fields[i].attrs;
        let mut count: usize = 0;
        let mut k: usize = 0;
        while k < attrs.len()
            invariant
                k <= attrs.len(),
                i < fields.len(),
                attrs@ == fields@[i as int].attrs@,
                count == lt_count(attrs@.take(k as int)),
                count <= k,
                forall|q: int| 0 <= q < k ==> !(#[trigger] attrs@[q] matches FieldAttr::Shape(Option::None)),
            decreases attrs.len() - k,
        {
            let ghost an = attrs@.take(k as int + 1);
            assert(an.drop_last() =~= attrs@.take(k as int));
            assert(an.last() == attrs@[k as int]);
            match &attrs[k] {
                FieldAttr::LocalTransform => { count = count + 1; },
                FieldAttr::Shape(None) => {
                    assert(fields@[i as int].attrs@[k as int] matches FieldAttr::Shape(Option::None));
                    return false;
                },
                _ => {},
            }
            k = k + 1;
        }
        assert(attrs@.take(attrs@.len() as int) =~= attrs@);
        if count > 1 - total {
            proof {
                lemma_total_lt_monotone(fields@, i as int + 1);
            }
            return false;
        }
        total = total + count;
        i = i + 1;
    }
    assert(fields@.take(fields@.len() as int) =~= fields@);
    true
}

/// The count over a prefix never exceeds the count over the whole.
proof fn lemma_total_lt_monotone(fields: Seq<FieldSpec>, n: int)
    requires
        0 <= n <= fields.len(),
    ensures
        total_lt_count(fields.take(n)) <= total_lt_count(fields),
    decreases fields.len() - n,
{
    if n < fields.len() {
        let next = fields.take(n + 1);
        assert(next.drop_last() =~= fields.take(n));
        lemma_total_lt_monotone(fields, n + 1);
    } else {
        assert(fields.take(n) =~= fields);
    }
}

/// Plans the internal derive for all the fields of a struct.
pub fn plan_shape_legacy(fields: &Vec<FieldSpec>) -> (r: DerivePlan)
    requires
        legacy_accepts(fields@),
    ensures
        r.fields.len() == fields.len(),
        forall|i: int| 0 <= i < fields.len() ==> #[trigger] r.fields@[i]@ == legacy_outcome(fields@[i]),
        r.local_transform == legacy_local_transform(fields@),
{
    let mut out: Vec<FieldOutcome> = Vec::new();
    let mut lt: Option<usize> = None;
    let mut i: usize = 0;
    while i < fields.len()
        invariant
            i <= fields.len(),
            legacy_accepts(fields@),
            out.len() == i,
            lt == legacy_local_transform(fields@.take(i as int)),
            forall|j: int| 0 <= j < i ==> #[trigger] out@[j]@ == legacy_outcome(fields@[j]),
        decreases fields.len() - i,
    {
        let ghost next = fields@.take(i as int + 1);
        assert(next.drop_last() =~= fields@.take(i as int));
        assert(next.last() == fields@[i as int]);
        let f = &fields[i];
        assert forall|k: int| 0 <= k < f.attrs@.len() implies !(#[trigger] f.attrs@[k] matches FieldAttr::Shape(Option::None)) by {
            assert(!(fields@[i as int].attrs@[k] matches FieldAttr::Shape(Option::None)));
        }
        let (count, skip, into, boolean) = legacy_scan(f);
        if count > 0 {
            lt = Some(i);
        }
        let outcome = if count > 0 || skip {
            FieldOutcome::Omitted
        } else {
            let kind = if boolean {
                SetterKind::Flag
            } else if into {
                SetterKind::Into
            } else {
                SetterKind::Plain
            };
            FieldOutcome::Generated { setters: make_pair(kind, f.name.clone()), maybe: None, doc: None }
        };
        out.push(outcome);
        i = i + 1;
    }
    assert(fields@.take(fields@.len() as int) =~= fields@);
    DerivePlan { fields: out, local_transform: lt }
}

} // verus!

verus! {

// ---------------------------------------------------------------------------
// Laws
// ---------------------------------------------------------------------------

/// Every field that gets setters gets one named after it, and its chaining
/// twin named `with_` and the field's name; with `option_fn`, also
/// `maybe_` and the name, and `with_maybe_` and the name.
pub proof fn law_setter_names(fields: Seq<FieldSpec>, i: int)
    requires
        0 <= i < fields.len(),
    ensures
        outcome_at(fields, i) matches FieldOutcomeView::Generated { setters, maybe, doc } ==> {
            &&& setters.name == fields[i].name@
            &&& setters.with_name == "with_"@ + fields[i].name@
            &&& maybe matches Option::Some(m) ==> {
                &&& m.name == "maybe_"@ + fields[i].name@
                &&& m.with_name == "with_"@ + ("maybe_"@ + fields[i].name@)
            }
        },
{
}

/// Only one field can be the local transform: the first field marked
/// `local_transform` takes it and gets no setter, and every later field so
/// marked is an error that points at the first.
pub proof fn law_single_local_transform(fields: Seq<FieldSpec>, i: int)
    requires
        0 <= i < fields.len(),
        first_stop(fields[i].attrs@) matches Option::Some(k) && fields[i].attrs@[k] is LocalTransform,
    ensures
        local_transform_of(fields.take(i)) is None ==> {
            &&& outcome_at(fields, i) == FieldOutcomeView::Omitted
            &&& local_transform_of(fields.take(i + 1)) == Option::Some(i as usize)
        },
        local_transform_of(fields.take(i)) matches Option::Some(j) ==> {
            &&& outcome_at(fields, i) == FieldOutcomeView::Failed(FieldError::DuplicateLocalTransform { first_field: j })
            &&& local_transform_of(fields.take(i + 1)) == Option::Some(j)
        },
{
    let next = fields.take(i + 1);
    assert(next.drop_last() =~= fields.take(i));
    assert(next.last() == fields[i]);
}

/// Once a field holds the local transform, no later field takes it over.
pub proof fn law_local_transform_is_first(fields: Seq<FieldSpec>, i: int, n: int)
    requires
        0 <= i < n <= fields.len(),
        local_transform_of(fields.take(i + 1)) == Option::Some(i as usize),
    ensures
        local_transform_of(fields.take(n)) == Option::Some(i as usize),
    decreases n - i,
{
    if n > i + 1 {
        law_local_transform_is_first(fields, i, n - 1);
        let t = fields.take(n);
        assert(t.drop_last() =~= fields.take(n - 1));
    }
}

/// A field marked `skip` and nothing else gets no setter.
pub proof fn law_skip_omits(f: FieldSpec, lt: Option<usize>)
    requires
        first_stop(f.attrs@) is None,
        last_flag(f.attrs@, ShapeFlag::Skip) is Some,
        last_flag(f.attrs@, ShapeFlag::Into) is None,
        last_flag(f.attrs@, ShapeFlag::Bool) is None,
        last_flag(f.attrs@, ShapeFlag::AsSome) is None,
        last_flag(f.attrs@, ShapeFlag::OptionFn) is None,
    ensures
        field_outcome(f, lt) == FieldOutcomeView::Omitted,
{
}

/// In the internal derive, a field marked `local_transform` or
/// `skip` gets no setter and every other field gets exactly its setter pair.
pub proof fn law_legacy_setters(f: FieldSpec)
    ensures
        (lt_count(f.attrs@) > 0 || has_flag(f.attrs@, ShapeFlag::Skip)) <==> legacy_outcome(f) is Omitted,
        legacy_outcome(f) matches FieldOutcomeView::Generated { setters, maybe, doc } ==> {
            &&& setters.name == f.name@
            &&& setters.with_name == "with_"@ + f.name@
            &&& maybe is None
        },
{
}


/// Whether some `shape` attribute of the field lists the identifier `name`.
pub open spec fn mentions(attrs: Seq<FieldAttr>, name: Seq<char>) -> bool {
    exists|k: int, j: int| #![trigger attrs[k], mention_at(attrs, k, j, name)]
        0 <= k < attrs.len() && mention_at(attrs, k, j, name)
}

/// Whether attribute `k` is a `shape` attribute whose identifier `j` is `name`.
pub open spec fn mention_at(attrs: Seq<FieldAttr>, k: int, j: int, name: Seq<char>) -> bool {
    attrs[k] matches FieldAttr::Shape(Option::Some(ids)) && 0 <= j < ids@.len() && ids@[j]@ == name
}

proof fn lemma_flag_names()
    ensures
        forall|x: Seq<char>| flag_of(x) == Option::Some(ShapeFlag::Into) <==> x == "into"@,
        forall|x: Seq<char>| flag_of(x) == Option::Some(ShapeFlag::OptionFn) <==> x == "option_fn"@,
{
    reveal_strlit("skip");
    reveal_strlit("into");
    reveal_strlit("bool");
    reveal_strlit("some");
    reveal_strlit("option_fn");
    assert("into"@ != "skip"@) by { assert("into"@[0] != "skip"@[0]); }
    assert("option_fn"@ != "skip"@) by { assert("option_fn"@.len() != "skip"@.len()); }
    assert("option_fn"@ != "into"@) by { assert("option_fn"@.len() != "into"@.len()); }
    assert("option_fn"@ != "bool"@) by { assert("option_fn"@.len() != "bool"@.len()); }
    assert("option_fn"@ != "some"@) by { assert("option_fn"@.len() != "some"@.len()); }
}

proof fn lemma_last_in_args_exists(ids: Seq<String>, f: ShapeFlag)
    ensures
        last_in_args(ids, f) is Some <==> exists|j: int| 0 <= j < ids.len() && flag_of(#[trigger] ids[j]@) == Option::Some(f),
    decreases ids.len(),
{
    if ids.len() > 0 {
        lemma_last_in_args_exists(ids.drop_last(), f);
        if last_in_args(ids.drop_last(), f) is Some {
            let j = choose|j: int| 0 <= j < ids.drop_last().len() && flag_of(#[trigger] ids.drop_last()[j]@) == Option::Some(f);
            assert(ids[j] == ids.drop_last()[j]);
        }
        if exists|j: int| 0 <= j < ids.len() && flag_of(#[trigger] ids[j]@) == Option::Some(f) {
            let j = choose|j: int| 0 <= j < ids.len() && flag_of(#[trigger] ids[j]@) == Option::Some(f);
            if j < ids.len() - 1 {
                assert(ids.drop_last()[j] == ids[j]);
            }
        }
    }
}

proof fn lemma_last_flag_exists(attrs: Seq<FieldAttr>, f: ShapeFlag)
    ensures
        last_flag(attrs, f) is Some <==> exists|k: int, j: int| #![trigger attrs[k], flag_at(attrs, k, j, f)]
            0 <= k < attrs.len() && flag_at(attrs, k, j, f),
    decreases attrs.len(),
{
    if attrs.len() > 0 {
        let pre = attrs.drop_last();
        lemma_last_flag_exists(pre, f);
        let n = attrs.len() - 1;
        match attrs.last() {
            FieldAttr::Shape(Option::Some(ids)) => {
                lemma_last_in_args_exists(ids@, f);
                if last_in_args(ids@, f) is Some {
                    let j = choose|j: int| 0 <= j < ids@.len() && flag_of(#[trigger] ids@[j]@) == Option::Some(f);
                    assert(flag_at(attrs, n, j, f));
                }
            },
            _ => {},
        }
        if last_flag(pre, f) is Some {
            let (k, j) = choose|k: int, j: int| #![trigger pre[k], flag_at(pre, k, j, f)] 0 <= k < pre.len() && flag_at(pre, k, j, f);
            assert(attrs[k] == pre[k]);
            assert(flag_at(attrs, k, j, f));
        }
        if exists|k: int, j: int| #![trigger attrs[k], flag_at(attrs, k, j, f)] 0 <= k < attrs.len() && flag_at(attrs, k, j, f) {
            let (k, j) = choose|k: int, j: int| #![trigger attrs[k], flag_at(attrs, k, j, f)] 0 <= k < attrs.len() && flag_at(attrs, k, j, f);
            if k < n {
                assert(pre[k] == attrs[k]);
                assert(flag_at(pre, k, j, f));
            } else {
                match attrs.last() {
                    FieldAttr::Shape(Option::Some(ids)) => {
                        assert(flag_of(ids@[j]@) == Option::Some(f));
                    },
                    _ => {},
                }
            }
        }
    }
}

/// Whether attribute `k` is a `shape` attribute whose identifier `j` names the flag `f`.
pub open spec fn flag_at(attrs: Seq<FieldAttr>, k: int, j: int, f: ShapeFlag) -> bool {
    attrs[k] matches FieldAttr::Shape(Option::Some(ids)) && 0 <= j < ids@.len() && flag_of(ids@[j]@) == Option::Some(f)
}

proof fn lemma_mentions_flag(attrs: Seq<FieldAttr>, f: ShapeFlag, name: Seq<char>)
    requires
        forall|x: Seq<char>| flag_of(x) == Option::Some(f) <==> x == name,
    ensures
        last_flag(attrs, f) is Some <==> mentions(attrs, name),
{
    lemma_last_flag_exists(attrs, f);
    if last_flag(attrs, f) is Some {
        let (k, j) = choose|k: int, j: int| #![trigger attrs[k], flag_at(attrs, k, j, f)] 0 <= k < attrs.len() && flag_at(attrs, k, j, f);
        assert(mention_at(attrs, k, j, name));
    }
    if mentions(attrs, name) {
        let (k, j) = choose|k: int, j: int| #![trigger attrs[k], mention_at(attrs, k, j, name)] 0 <= k < attrs.len() && mention_at(attrs, k, j, name);
        assert(flag_at(attrs, k, j, f));
    }
}

/// A field that gets setters gets a `maybe_` setter exactly when one of its
/// `shape` attributes lists `option_fn`; that setter converts its argument
/// (kind `MaybeInto`) exactly when one of them also lists `into`, and takes
/// the field's own type (kind `MaybePlain`) otherwise.
pub proof fn law_maybe_setter_kind(fields: Seq<FieldSpec>, i: int)
    requires
        0 <= i < fields.len(),
    ensures
        outcome_at(fields, i) matches FieldOutcomeView::Generated { setters, maybe, doc } ==> {
            &&& maybe is Some <==> mentions(fields[i].attrs@, "option_fn"@)
            &&& maybe matches Option::Some(m) ==> {
                &&& m.kind == SetterKind::MaybeInto || m.kind == SetterKind::MaybePlain
                &&& m.kind == SetterKind::MaybeInto <==> mentions(fields[i].attrs@, "into"@)
            }
        },
{
    lemma_flag_names();
    lemma_mentions_flag(fields[i].attrs@, ShapeFlag::Into, "into"@);
    lemma_mentions_flag(fields[i].attrs@, ShapeFlag::OptionFn, "option_fn"@);
}
} // verus!
