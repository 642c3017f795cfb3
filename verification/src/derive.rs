//! What `#[derive(Choice)]`, `#[derive(Score)]` and `#[derive(Questions)]`
//! accept, and the plan each derive follows to emit its code.
//!
//! The derives read the Rust item into the plain inputs below; the rules
//! here decide the labels, descriptions and question keys, or the errors.
use vstd::prelude::*;

use crate::attr::{
    enum_items, field_items, parse_enum_attr, parse_field_attr, parse_variant_attr, variant_forms,
    AttrErrorKind, EnumAttr, EnumAttrView, FieldAttrView, FormView, ItemView, MetaItem,
    VariantAttrForm, VariantAttrView,
};
use crate::rename::{apply, renamed, same_text};
use crate::traits::{MAX_CHOICE_OPTIONS, MIN_CHOICE_OPTIONS, MIN_SCORE_LEVELS};
use crate::wire::{json_parse, parse_json};

verus! {

/// What a derive refused.
#[derive(Clone, Copy, Debug, PartialEq, Eq)]
pub enum DeriveErrorKind {
    /// An `#[s1(...)]` attribute broke the attribute rules.
    Attribute(AttrErrorKind),
    /// Fewer variants than the question kind needs.
    TooFewVariants,
    /// More variants than the question kind allows.
    TooManyVariants,
    /// `instructions_json` is not valid JSON.
    InvalidInstructionsJson,
    /// Both `instructions` and `instructions_json` were given.
    BothInstructions,
    /// Neither `instructions` nor `instructions_json` was given.
    MissingInstructions,
    /// A variant has fields.
    VariantHasFields,
    /// The `rename_all` rule is not supported.
    UnsupportedRename,
    /// Two variants share a label.
    DuplicateLabel,
    /// A `desc_json` is not valid JSON.
    InvalidDescriptionJson,
    /// Both `desc` and `desc_json` were given.
    BothDescriptions,
    /// A variant has no description (and empty ones are not allowed).
    MissingDescription,
    /// `#[s1(flatten)]` is not supported.
    Flatten,
    /// Two fields share a question key.
    DuplicateKey,
    /// A `bool` field without `#[s1(noul = "...")]`.
    BoolWithoutNoul,
    /// A field of a primitive type other than `bool`.
    UnsupportedFieldType,
    /// `noul` on a field that is not `bool`.
    NoulOnNonBool,
    /// A field without a name.
    UnnamedField,
    /// The item has generic parameters.
    GenericParameters,
    /// A Choice or Score derive on something other than an enum.
    NotAnEnum,
    /// A Questions derive on something other than a struct.
    NotAStruct,
    /// A Questions derive on a struct without named fields.
    UnnamedFields,
}

/// A refused derive input: what, on which variant or field, and the detail
/// (attribute key, label, rule or question key).
#[derive(Clone, Debug)]
pub struct DeriveError {
    /// What was refused.
    pub kind: DeriveErrorKind,
    /// The variant or field concerned (empty for the item itself).
    pub subject: String,
    /// The attribute key, label, rule or key concerned (or empty).
    pub detail: String,
}

/// A refusal seen through views.
pub type Refusal = (DeriveErrorKind, Seq<char>, Seq<char>);

impl View for DeriveError {
    type V = Refusal;

    open spec fn view(&self) -> Refusal {
        (self.kind, self.subject@, self.detail@)
    }
}

/// A variant of the enum being derived.
#[derive(Clone, Debug)]
pub struct VariantInput {
    /// The variant's identifier.
    pub ident: String,
    /// Whether it declares fields.
    pub has_fields: bool,
    /// Its `#[s1...]` attributes, list items flattened in order.
    pub attrs: Vec<VariantAttrForm>,
}

/// A variant input seen through views.
pub struct VariantView {
    /// Identifier.
    pub ident: Seq<char>,
    /// Declares fields.
    pub has_fields: bool,
    /// Attribute forms.
    pub forms: Seq<FormView>,
}

impl View for VariantInput {
    type V = VariantView;

    open spec fn view(&self) -> VariantView {
        VariantView {
            ident: self.ident@,
            has_fields: self.has_fields,
            forms: self.attrs@.map_values(|f: VariantAttrForm| f@),
        }
    }
}

/// Where the question text comes from.
#[derive(Clone, Debug)]
pub enum TextSource {
    /// Plain text.
    Text(String),
    /// JSON source, checked to parse.
    Json(String),
    /// No text (wire `null`).
    Null,
}

/// A text source seen through views: `(kind, text)` with kind 0 text,
/// 1 JSON, 2 null.
pub type SourceView = (int, Seq<char>);

impl View for TextSource {
    type V = SourceView;

    open spec fn view(&self) -> SourceView {
        match self {
            TextSource::Text(s) => (0, s@),
            TextSource::Json(s) => (1, s@),
            TextSource::Null => (2, Seq::empty()),
        }
    }
}

/// The plan for one variant.
#[derive(Clone, Debug)]
pub struct VariantPlan {
    /// Variant identifier.
    pub ident: String,
    /// Wire label (Choice only; empty for Score levels).
    pub label: String,
    /// Description.
    pub description: TextSource,
    /// Declaration index.
    pub index: usize,
}

/// A variant plan seen through views.
pub struct VariantPlanView {
    /// Identifier.
    pub ident: Seq<char>,
    /// Label.
    pub label: Seq<char>,
    /// Description.
    pub description: SourceView,
    /// Declaration index.
    pub index: int,
}

impl View for VariantPlan {
    type V = VariantPlanView;

    open spec fn view(&self) -> VariantPlanView {
        VariantPlanView {
            ident: self.ident@,
            label: self.label@,
            description: self.description@,
            index: self.index as int,
        }
    }
}

/// The plan of a Choice or Score derive: instructions and variants.
#[derive(Clone, Debug)]
pub struct EnumPlan {
    /// Instructions.
    pub instructions: TextSource,
    /// Variants in declaration order.
    pub variants: Vec<VariantPlan>,
}

fn refuse(kind: DeriveErrorKind, subject: &str, detail: &str) -> (e: DeriveError)
    ensures
        e@ == (kind, subject@, detail@),
{
    DeriveError { kind, subject: subject.to_owned(), detail: detail.to_owned() }
}

fn refuse_plain(kind: DeriveErrorKind, subject: &str) -> (e: DeriveError)
    ensures
        e@ == (kind, subject@, Seq::<char>::empty()),
{
    DeriveError { kind, subject: subject.to_owned(), detail: String::new() }
}

fn refuse_item(kind: DeriveErrorKind) -> (e: DeriveError)
    ensures
        e@ == (kind, Seq::<char>::empty(), Seq::<char>::empty()),
{
    DeriveError { kind, subject: String::new(), detail: String::new() }
}

fn refuse_attr(e: crate::attr::AttrError, subject: String) -> (r: DeriveError)
    ensures
        r@ == (DeriveErrorKind::Attribute(e.kind), subject@, e.name@),
{
    DeriveError { kind: DeriveErrorKind::Attribute(e.kind), subject, detail: e.name }
}

/// The instructions an enum's attributes give, or why they give none.
pub open spec fn instructions_outcome(a: EnumAttrView) -> Result<SourceView, DeriveErrorKind> {
    match (a.instructions, a.instructions_json) {
        (Some(t), None) => Ok((0, t)),
        (None, Some(j)) => if json_parse(j) is Some {
            Ok((1, j))
        } else {
            Err(DeriveErrorKind::InvalidInstructionsJson)
        },
        (Some(_), Some(_)) => Err(DeriveErrorKind::BothInstructions),
        (None, None) => Err(DeriveErrorKind::MissingInstructions),
    }
}

/// The description a variant's attributes give, or why they give none.
pub open spec fn description_outcome(a: VariantAttrView, allow_empty: bool) -> Result<
    SourceView,
    DeriveErrorKind,
> {
    match (a.desc, a.desc_json) {
        (Some(d), None) => Ok((0, d)),
        (None, Some(j)) => if json_parse(j) is Some {
            Ok((1, j))
        } else {
            Err(DeriveErrorKind::InvalidDescriptionJson)
        },
        (Some(_), Some(_)) => Err(DeriveErrorKind::BothDescriptions),
        (None, None) => if allow_empty {
            Ok((2, Seq::empty()))
        } else {
            Err(DeriveErrorKind::MissingDescription)
        },
    }
}

/// What a refusal of an item's instructions names: the JSON text, when it
/// does not parse.
pub open spec fn instructions_detail(k: DeriveErrorKind, a: EnumAttrView) -> Seq<char> {
    match (k, a.instructions_json) {
        (DeriveErrorKind::InvalidInstructionsJson, Some(j)) => j,
        _ => Seq::empty(),
    }
}

/// What a refusal of a variant's description names: the JSON text, when it
/// does not parse.
pub open spec fn description_detail(k: DeriveErrorKind, a: VariantAttrView) -> Seq<char> {
    match (k, a.desc_json) {
        (DeriveErrorKind::InvalidDescriptionJson, Some(j)) => j,
        _ => Seq::empty(),
    }
}

fn instructions_detail_of(k: DeriveErrorKind, a: &EnumAttr) -> (d: String)
    ensures
        d@ == instructions_detail(k, a@),
{
    match (k, &a.instructions_json) {
        (DeriveErrorKind::InvalidInstructionsJson, Some(j)) => j.clone(),
        _ => String::new(),
    }
}

fn description_detail_of(k: DeriveErrorKind, a: &crate::attr::VariantAttr) -> (d: String)
    ensures
        d@ == description_detail(k, a@),
{
    match (k, &a.desc_json) {
        (DeriveErrorKind::InvalidDescriptionJson, Some(j)) => j.clone(),
        _ => String::new(),
    }
}

fn instructions_of(a: &EnumAttr) -> (r: Result<TextSource, DeriveErrorKind>)
    ensures
        match instructions_outcome(a@) {
            Ok(s) => r matches Ok(t) && t@ == s,
            Err(k) => r == Err::<TextSource, DeriveErrorKind>(k),
        },
{
    match (&a.instructions, &a.instructions_json) {
        (Some(t), None) => Ok(TextSource::Text(t.clone())),
        (None, Some(j)) => {
            if parse_json(j.as_str()).is_some() {
                Ok(TextSource::Json(j.clone()))
            } else {
                Err(DeriveErrorKind::InvalidInstructionsJson)
            }
        },
        (Some(_), Some(_)) => Err(DeriveErrorKind::BothInstructions),
        (None, None) => Err(DeriveErrorKind::MissingInstructions),
    }
}

fn description_of(a: &crate::attr::VariantAttr, allow_empty: bool) -> (r: Result<
    TextSource,
    DeriveErrorKind,
>)
    ensures
        match description_outcome(a@, allow_empty) {
            Ok(s) => r matches Ok(t) && t@ == s,
            Err(k) => r == Err::<TextSource, DeriveErrorKind>(k),
        },
{
    match (&a.desc, &a.desc_json) {
        (Some(d), None) => Ok(TextSource::Text(d.clone())),
        (None, Some(j)) => {
            if parse_json(j.as_str()).is_some() {
                Ok(TextSource::Json(j.clone()))
            } else {
                Err(DeriveErrorKind::InvalidDescriptionJson)
            }
        },
        (Some(_), Some(_)) => Err(DeriveErrorKind::BothDescriptions),
        (None, None) => {
            if allow_empty {
                Ok(TextSource::Null)
            } else {
                Err(DeriveErrorKind::MissingDescription)
            }
        },
    }
}

/// The variant's attributes and label, or the refusal that skips it.
/// Score levels (`labelled == false`) take no label.
pub open spec fn label_outcome(v: VariantView, rule: Seq<char>, labelled: bool) -> Result<
    (VariantAttrView, Seq<char>),
    Refusal,
> {
    if v.has_fields {
        Err((DeriveErrorKind::VariantHasFields, v.ident, Seq::empty()))
    } else {
        match variant_forms(VariantAttrView { label: None, desc: None, desc_json: None }, v.forms) {
            Err(f) => Err((DeriveErrorKind::Attribute(f.0), v.ident, f.1)),
            Ok(a) => if !labelled {
                Ok((a, Seq::empty()))
            } else {
                match a.label {
                    Some(l) => Ok((a, l)),
                    None => match renamed(v.ident, rule) {
                        Some(l) => Ok((a, l)),
                        None => Err((DeriveErrorKind::UnsupportedRename, v.ident, rule)),
                    },
                }
            },
        }
    }
}

/// Scan of the variants: labels taken so far, refusals, and plans, in
/// order. A variant refused before its label is skipped; a duplicate label
/// is refused but the variant's description is still checked; a variant
/// with a usable description is planned.
pub open spec fn variant_scan(vs: Seq<VariantView>, rule: Seq<char>, allow_empty: bool, labelled: bool) -> (
    Seq<Seq<char>>,
    Seq<Refusal>,
    Seq<VariantPlanView>,
)
    decreases vs.len(),
{
    if vs.len() == 0 {
        (Seq::empty(), Seq::empty(), Seq::empty())
    } else {
        let (seen, errs, plans) = variant_scan(vs.drop_last(), rule, allow_empty, labelled);
        let v = vs.last();
        let i = vs.len() - 1;
        match label_outcome(v, rule, labelled) {
            Err(e) => (seen, errs.push(e), plans),
            Ok((a, label)) => {
                let errs1 = if labelled && seen.contains(label) {
                    errs.push((DeriveErrorKind::DuplicateLabel, v.ident, label))
                } else {
                    errs
                };
                let seen1 = seen.push(label);
                match description_outcome(a, allow_empty) {
                    Err(k) => (seen1, errs1.push((k, v.ident, description_detail(k, a))), plans),
                    Ok(d) => (
                        seen1,
                        errs1,
                        plans.push(
                            VariantPlanView { ident: v.ident, label, description: d, index: i },
                        ),
                    ),
                }
            },
        }
    }
}

proof fn lemma_variant_scan(vs: Seq<VariantView>, rule: Seq<char>, allow_empty: bool)
    ensures
        ({
            let (seen, errs, plans) = variant_scan(vs, rule, allow_empty, true);
            &&& forall|j: int| 0 <= j < plans.len() ==> seen.contains(#[trigger] plans[j].label)
            &&& errs.len() == 0 ==> forall|a: int, b: int|
                0 <= a < b < plans.len() ==> #[trigger] plans[a].label != #[trigger] plans[b].label
            &&& errs.len() + plans.len() >= vs.len()
            &&& plans.len() <= vs.len()
            &&& errs.len() == 0 ==> plans.len() == vs.len() && forall|j: int|
                0 <= j < plans.len() ==> (#[trigger] plans[j]).index == j && plans[j].ident
                    == vs[j].ident
        }),
    decreases vs.len(),
{
    if vs.len() > 0 {
        lemma_variant_scan(vs.drop_last(), rule, allow_empty);
        let (seen0, errs0, plans0) = variant_scan(vs.drop_last(), rule, allow_empty, true);
        let (seen, errs, plans) = variant_scan(vs, rule, allow_empty, true);
        assert(errs.len() >= errs0.len());
        assert forall|j: int| 0 <= j < plans.len() implies seen.contains(#[trigger] plans[j].label) by {
            if j < plans0.len() {
                assert(plans[j] == plans0[j]);
                let k = choose|k: int| 0 <= k < seen0.len() && seen0[k] == plans0[j].label;
                assert(seen[k] == seen0[k]);
            } else {
                assert(seen[seen.len() - 1] == plans[j].label);
            }
        }
        if errs.len() == 0 {
            assert forall|j: int| 0 <= j < plans.len() implies (#[trigger] plans[j]).index == j
                && plans[j].ident == vs[j].ident by {
                if j < plans0.len() {
                    assert(plans[j] == plans0[j]);
                }
            }
            assert forall|a: int, b: int| 0 <= a < b < plans.len() implies #[trigger] plans[a].label
                != #[trigger] plans[b].label by {
                if b < plans0.len() {
                    assert(plans[a] == plans0[a]);
                    assert(plans[b] == plans0[b]);
                } else {
                    assert(plans[a] == plans0[a]);
                    assert(seen0.contains(plans0[a].label));
                }
            }
        }
    }
}

/// A Choice derive that succeeds gives every planned variant its own label:
/// no two options share a wire label.
pub proof fn lemma_choice_labels_distinct(items: Seq<ItemView>, vs: Seq<VariantView>)
    requires
        enum_outcome(items, vs, true, MIN_CHOICE_OPTIONS as int) is Ok,
    ensures
        ({
            let plans = enum_outcome(items, vs, true, MIN_CHOICE_OPTIONS as int)->Ok_0.1;
            &&& forall|a: int, b: int|
                0 <= a < b < plans.len() ==> #[trigger] plans[a].label != #[trigger] plans[b].label
            &&& MIN_CHOICE_OPTIONS <= vs.len() <= MAX_CHOICE_OPTIONS
            &&& plans.len() == vs.len()
            &&& forall|j: int|
                0 <= j < plans.len() ==> (#[trigger] plans[j]).index == j && plans[j].ident
                    == vs[j].ident
        }),
{
    let a = enum_items(
        EnumAttrView {
            instructions: None,
            instructions_json: None,
            rename_all: None,
            allow_empty_descriptions: false,
            answers: None,
        },
        items,
    )->Ok_0;
    let rule = match a.rename_all {
        Some(r) => r,
        None => "snake_case"@,
    };
    lemma_variant_scan(vs, rule, a.allow_empty_descriptions);
}

/// Outcome of a Choice (`labelled`) or Score derive over the enum's
/// attribute items and variants.
pub open spec fn enum_outcome(
    items: Seq<ItemView>,
    vs: Seq<VariantView>,
    labelled: bool,
    min: int,
) -> Result<(SourceView, Seq<VariantPlanView>), Seq<Refusal>> {
    match enum_items(
        EnumAttrView {
            instructions: None,
            instructions_json: None,
            rename_all: None,
            allow_empty_descriptions: false,
            answers: None,
        },
        items,
    ) {
        Err(f) => Err(seq![(DeriveErrorKind::Attribute(f.0), Seq::<char>::empty(), f.1)]),
        Ok(a) => if vs.len() < min {
            Err(seq![(DeriveErrorKind::TooFewVariants, Seq::<char>::empty(), Seq::<char>::empty())])
        } else if vs.len() > MAX_CHOICE_OPTIONS {
            Err(seq![(DeriveErrorKind::TooManyVariants, Seq::<char>::empty(), Seq::<char>::empty())])
        } else {
            match instructions_outcome(a) {
                Err(k) => Err(seq![(k, Seq::<char>::empty(), instructions_detail(k, a))]),
                Ok(ins) => {
                    let rule = match a.rename_all {
                        Some(r) => r,
                        None => "snake_case"@,
                    };
                    let (_, errs, plans) = variant_scan(vs, rule, a.allow_empty_descriptions, labelled);
                    if errs.len() == 0 {
                        Ok((ins, plans))
                    } else {
                        Err(errs)
                    }
                },
            }
        },
    }
}

fn contains_text(seen: &Vec<String>, s: &str) -> (r: bool)
    ensures
        r == seen@.map_values(|t: String| t@).contains(s@),
{
    let n = seen.len();
    let mut i: usize = 0;
    while i < n
        invariant
            n == seen@.len(),
            0 <= i <= n,
            forall|j: int| 0 <= j < i ==> seen@[j]@ != s@,
        decreases n - i,
    {
        if same_text(seen[i].as_str(), s) {
            proof {
                assert(seen@.map_values(|t: String| t@)[i as int] == s@);
            }
            return true;
        }
        i = i + 1;
    }
    proof {
        let views = seen@.map_values(|t: String| t@);
        if views.contains(s@) {
            let j = choose|j: int| 0 <= j < views.len() && #[trigger] views[j] == s@;
            assert(seen@[j]@ == s@);
        }
    }
    false
}

/// Plan a Choice derive (`labelled`, at least two variants, labels from
/// `rename_all`, default snake case) or a Score derive (at least two levels,
/// no labels): the instructions and one plan per variant, or every refusal.
/// Attribute, count and instructions refusals stop at the first; variant
/// refusals are all collected.
pub fn plan_enum(items: &Vec<MetaItem>, variants: &Vec<VariantInput>, labelled: bool) -> (r: Result<
    EnumPlan,
    Vec<DeriveError>,
>)
    ensures
        match enum_outcome(
            items@.map_values(|it: MetaItem| it@),
            variants@.map_values(|v: VariantInput| v@),
            labelled,
            if labelled {
                MIN_CHOICE_OPTIONS as int
            } else {
                MIN_SCORE_LEVELS as int
            },
        ) {
            Ok((ins, plans)) => r matches Ok(p) && p.instructions@ == ins && p.variants@.map_values(
                |v: VariantPlan| v@,
            ) == plans,
            Err(errs) => r matches Err(es) && es@.map_values(|e: DeriveError| e@) == errs,
        },
{
    let attr = match parse_enum_attr(items) {
        Ok(a) => a,
        Err(e) => {
            let mut es: Vec<DeriveError> = Vec::new();
            es.push(refuse_attr(e, String::new()));
            proof {
                assert(es@.map_values(|e: DeriveError| e@) =~= seq![
                    (DeriveErrorKind::Attribute(e.kind), Seq::<char>::empty(), e.name@),
                ]);
            }
            return Err(es);
        },
    };
    let min = if labelled {
        MIN_CHOICE_OPTIONS
    } else {
        MIN_SCORE_LEVELS
    };
    let n = variants.len();
    if n < min || n > MAX_CHOICE_OPTIONS {
        let kind = if n < min {
            DeriveErrorKind::TooFewVariants
        } else {
            DeriveErrorKind::TooManyVariants
        };
        let mut es: Vec<DeriveError> = Vec::new();
        es.push(refuse_item(kind));
        proof {
            assert(es@.map_values(|e: DeriveError| e@) =~= seq![(kind, Seq::<char>::empty(), Seq::<char>::empty())]);
        }
        return Err(es);
    }
    let instructions = match instructions_of(&attr) {
        Ok(t) => t,
        Err(k) => {
            let detail = instructions_detail_of(k, &attr);
            let mut es: Vec<DeriveError> = Vec::new();
            es.push(DeriveError { kind: k, subject: String::new(), detail });
            proof {
                assert(es@.map_values(|e: DeriveError| e@) =~= seq![
                    (k, Seq::<char>::empty(), instructions_detail(k, attr@)),
                ]);
            }
            return Err(es);
        },
    };
    let rule = match &attr.rename_all {
        Some(r) => r.clone(),
        None => "snake_case".to_owned(),
    };
    let allow_empty = attr.allow_empty_descriptions;
    let ghost vs = variants@.map_values(|v: VariantInput| v@);
    let mut seen: Vec<String> = Vec::new();
    let mut errs: Vec<DeriveError> = Vec::new();
    let mut plans: Vec<VariantPlan> = Vec::new();
    let mut i: usize = 0;
    while i < n
        invariant
            n == variants@.len(),
            vs == variants@.map_values(|v: VariantInput| v@),
            0 <= i <= n,
            rule@ == (match attr@.rename_all {
                Some(r) => r,
                None => "snake_case"@,
            }),
            allow_empty == attr@.allow_empty_descriptions,
            variant_scan(vs.take(i as int), rule@, allow_empty, labelled) == (
                seen@.map_values(|t: String| t@),
                errs@.map_values(|e: DeriveError| e@),
                plans@.map_values(|v: VariantPlan| v@),
            ),
        decreases n - i,
    {
        proof {
            assert(vs.take(i + 1).drop_last() =~= vs.take(i as int));
            assert(vs.take(i + 1).last() == variants@[i as int]@);
        }
        let variant = &variants[i];
        let ident = variant.ident.as_str();
        let ghost seen0 = seen@.map_values(|t: String| t@);
        let ghost errs0 = errs@.map_values(|e: DeriveError| e@);
        let ghost plans0 = plans@.map_values(|v: VariantPlan| v@);
        if variant.has_fields {
            errs.push(refuse_plain(DeriveErrorKind::VariantHasFields, ident));
            proof {
                assert(errs@.map_values(|e: DeriveError| e@) =~= errs0.push(
                    (DeriveErrorKind::VariantHasFields, ident@, Seq::<char>::empty()),
                ));
            }
            i = i + 1;
            continue;
        }
        let vattr = match parse_variant_attr(&variant.attrs) {
            Ok(a) => a,
            Err(e) => {
                let ghost f = (DeriveErrorKind::Attribute(e.kind), ident@, e.name@);
                errs.push(refuse_attr(e, ident.to_owned()));
                proof {
                    assert(errs@.map_values(|e: DeriveError| e@) =~= errs0.push(f));
                }
                i = i + 1;
                continue;
            },
        };
        let label = if !labelled {
            String::new()
        } else {
            match &vattr.label {
                Some(l) => l.clone(),
                None => match apply(ident, rule.as_str()) {
                    Some(l) => l,
                    None => {
                        errs.push(refuse(DeriveErrorKind::UnsupportedRename, ident, rule.as_str()));
                        proof {
                            assert(errs@.map_values(|e: DeriveError| e@) =~= errs0.push(
                                (DeriveErrorKind::UnsupportedRename, ident@, rule@),
                            ));
                        }
                        i = i + 1;
                        continue;
                    },
                },
            }
        };
        if labelled && contains_text(&seen, label.as_str()) {
            errs.push(refuse(DeriveErrorKind::DuplicateLabel, ident, label.as_str()));
        }
        let ghost errs1 = errs@.map_values(|e: DeriveError| e@);
        proof {
            assert(errs1 =~= (if labelled && seen0.contains(label@) {
                errs0.push((DeriveErrorKind::DuplicateLabel, ident@, label@))
            } else {
                errs0
            }));
        }
        seen.push(label.clone());
        proof {
            assert(seen@.map_values(|t: String| t@) =~= seen0.push(label@));
        }
        match description_of(&vattr, allow_empty) {
            Err(k) => {
                let detail = description_detail_of(k, &vattr);
                errs.push(DeriveError { kind: k, subject: ident.to_owned(), detail });
                proof {
                    assert(errs@.map_values(|e: DeriveError| e@) =~= errs1.push(
                        (k, ident@, description_detail(k, vattr@)),
                    ));
                }
            },
            Ok(d) => {
                plans.push(VariantPlan { ident: variant.ident.clone(), label, description: d, index: i });
                proof {
                    assert(plans@.map_values(|v: VariantPlan| v@) =~= plans0.push(
                        plans@[plans@.len() - 1]@,
                    ));
                }
            },
        }
        i = i + 1;
    }
    proof {
        assert(vs.take(n as int) =~= vs);
    }
    if errs.len() == 0 {
        Ok(EnumPlan { instructions, variants: plans })
    } else {
        Err(errs)
    }
}

/// A field of the struct being derived as a question set.
#[derive(Clone, Debug)]
pub struct FieldInput {
    /// The field's name (`None` for a tuple field).
    pub ident: Option<String>,
    /// Items of its `#[s1(...)]` attributes, in order.
    pub attrs: Vec<MetaItem>,
    /// The type is `Option<...>`.
    pub optional: bool,
    /// The (inner) type's name when it is a single identifier.
    pub type_ident: Option<String>,
}

/// A field input seen through views.
pub struct FieldView {
    /// Name.
    pub ident: Option<Seq<char>>,
    /// Attribute items.
    pub items: Seq<ItemView>,
    /// `Option<...>`.
    pub optional: bool,
    /// Type name.
    pub type_ident: Option<Seq<char>>,
}

impl View for FieldInput {
    type V = FieldView;

    open spec fn view(&self) -> FieldView {
        FieldView {
            ident: crate::attr::opt_view(self.ident),
            items: self.attrs@.map_values(|it: MetaItem| it@),
            optional: self.optional,
            type_ident: crate::attr::opt_view(self.type_ident),
        }
    }
}

/// How a planned field is asked.
#[derive(Clone, Debug)]
pub enum FieldKind {
    /// A Choice or Score type.
    Typed {
        /// The field is `Option<...>`.
        optional: bool,
    },
    /// A `bool` asked as a Noul question.
    Noul {
        /// Instructions.
        instructions: String,
        /// What `true` means.
        true_means: Option<String>,
        /// What `false` means.
        false_means: Option<String>,
        /// The field is `Option<bool>`.
        optional: bool,
    },
}

/// A field kind seen through views.
pub enum FieldKindView {
    /// Typed.
    Typed(bool),
    /// Noul: instructions, true, false, optional.
    Noul(Seq<char>, Option<Seq<char>>, Option<Seq<char>>, bool),
}

impl View for FieldKind {
    type V = FieldKindView;

    open spec fn view(&self) -> FieldKindView {
        match self {
            FieldKind::Typed { optional } => FieldKindView::Typed(*optional),
            FieldKind::Noul { instructions, true_means, false_means, optional } => FieldKindView::Noul(
                instructions@,
                crate::attr::opt_view(*true_means),
                crate::attr::opt_view(*false_means),
                *optional,
            ),
        }
    }
}

/// The plan for one field.
#[derive(Clone, Debug)]
pub struct FieldPlan {
    /// Field name.
    pub ident: String,
    /// Question id.
    pub key: String,
    /// How it is asked.
    pub kind: FieldKind,
    /// Position among the struct's fields.
    pub index: usize,
}

/// A field plan seen through views.
pub struct FieldPlanView {
    /// Name.
    pub ident: Seq<char>,
    /// Key.
    pub key: Seq<char>,
    /// Kind.
    pub kind: FieldKindView,
    /// Position.
    pub index: int,
}

impl View for FieldPlan {
    type V = FieldPlanView;

    open spec fn view(&self) -> FieldPlanView {
        FieldPlanView { ident: self.ident@, key: self.key@, kind: self.kind@, index: self.index as int }
    }
}

/// The plan of a Questions derive.
#[derive(Clone, Debug)]
pub struct QuestionsPlan {
    /// Name of the generated answers struct.
    pub answers: String,
    /// Planned fields in declaration order.
    pub fields: Vec<FieldPlan>,
}

/// Type names refused as question fields (besides `bool`, which needs
/// `noul`).
pub open spec fn primitive_names() -> Seq<Seq<char>> {
    seq![
        "u8"@,
        "u16"@,
        "u32"@,
        "u64"@,
        "u128"@,
        "usize"@,
        "i8"@,
        "i16"@,
        "i32"@,
        "i64"@,
        "i128"@,
        "isize"@,
        "f32"@,
        "f64"@,
        "char"@,
        "str"@,
        "String"@,
    ]
}

/// The type named `t` is a primitive refused as a question field.
pub fn is_primitive(t: &str) -> (r: bool)
    ensures
        r == primitive_names().contains(t@),
{
    proof {
        let names = primitive_names();
        if names.contains(t@) {
            let j = choose|j: int| 0 <= j < names.len() && #[trigger] names[j] == t@;
            assert(0 <= j < 17);
        }
    }
    same_text(t, "u8") || same_text(t, "u16") || same_text(t, "u32") || same_text(t, "u64")
        || same_text(t, "u128") || same_text(t, "usize") || same_text(t, "i8") || same_text(t, "i16")
        || same_text(t, "i32") || same_text(t, "i64") || same_text(t, "i128") || same_text(t, "isize")
        || same_text(t, "f32") || same_text(t, "f64") || same_text(t, "char") || same_text(t, "str")
        || same_text(t, "String")
}

/// Scan of the fields: keys taken so far, refusals, and plans, in order.
pub open spec fn field_scan(fs: Seq<FieldView>) -> (Seq<Seq<char>>, Seq<Refusal>, Seq<FieldPlanView>)
    decreases fs.len(),
{
    if fs.len() == 0 {
        (Seq::empty(), Seq::empty(), Seq::empty())
    } else {
        let (seen, errs, plans) = field_scan(fs.drop_last());
        let f = fs.last();
        let i = fs.len() - 1;
        match f.ident {
            None => (seen, errs.push((DeriveErrorKind::UnnamedField, Seq::empty(), Seq::empty())), plans),
            Some(ident) => match field_items(
                FieldAttrView {
                    noul: None,
                    key: None,
                    true_means: None,
                    false_means: None,
                    flatten: false,
                },
                f.items,
            ) {
                Err(e) => (seen, errs.push((DeriveErrorKind::Attribute(e.0), ident, e.1)), plans),
                Ok(a) => if a.flatten {
                    (seen, errs.push((DeriveErrorKind::Flatten, ident, Seq::empty())), plans)
                } else {
                    let key = match a.key {
                        Some(k) => k,
                        None => ident,
                    };
                    let errs1 = if seen.contains(key) {
                        errs.push((DeriveErrorKind::DuplicateKey, ident, key))
                    } else {
                        errs
                    };
                    let seen1 = seen.push(key);
                    if f.type_ident == Some("bool"@) {
                        match a.noul {
                            None => (
                                seen1,
                                errs1.push((DeriveErrorKind::BoolWithoutNoul, ident, Seq::empty())),
                                plans,
                            ),
                            Some(ins) => (
                                seen1,
                                errs1,
                                plans.push(
                                    FieldPlanView {
                                        ident,
                                        key,
                                        kind: FieldKindView::Noul(
                                            ins,
                                            a.true_means,
                                            a.false_means,
                                            f.optional,
                                        ),
                                        index: i,
                                    },
                                ),
                            ),
                        }
                    } else if f.type_ident matches Some(t) && primitive_names().contains(t) {
                        (
                            seen1,
                            errs1.push((DeriveErrorKind::UnsupportedFieldType, ident, Seq::empty())),
                            plans,
                        )
                    } else {
                        let errs2 = if a.noul is Some {
                            errs1.push((DeriveErrorKind::NoulOnNonBool, ident, Seq::empty()))
                        } else {
                            errs1
                        };
                        (
                            seen1,
                            errs2,
                            plans.push(
                                FieldPlanView {
                                    ident,
                                    key,
                                    kind: FieldKindView::Typed(f.optional),
                                    index: i,
                                },
                            ),
                        )
                    }
                },
            },
        }
    }
}

/// Name of the answers struct: the `answers` attribute, else the struct's
/// name followed by `Answers`.
pub open spec fn answers_name(a: EnumAttrView, name: Seq<char>) -> Seq<char> {
    match a.answers {
        Some(n) => n,
        None => name + "Answers"@,
    }
}

/// Outcome of a Questions derive over struct `name`'s attribute items and
/// fields.
pub open spec fn questions_outcome(name: Seq<char>, items: Seq<ItemView>, fs: Seq<FieldView>) -> Result<
    (Seq<char>, Seq<FieldPlanView>),
    Seq<Refusal>,
> {
    match enum_items(
        EnumAttrView {
            instructions: None,
            instructions_json: None,
            rename_all: None,
            allow_empty_descriptions: false,
            answers: None,
        },
        items,
    ) {
        Err(f) => Err(seq![(DeriveErrorKind::Attribute(f.0), Seq::<char>::empty(), f.1)]),
        Ok(a) => {
            let (_, errs, plans) = field_scan(fs);
            if errs.len() == 0 {
                Ok((answers_name(a, name), plans))
            } else {
                Err(errs)
            }
        },
    }
}

proof fn lemma_field_scan(fs: Seq<FieldView>)
    ensures
        ({
            let (seen, errs, plans) = field_scan(fs);
            &&& forall|j: int| 0 <= j < plans.len() ==> seen.contains(#[trigger] plans[j].key)
            &&& errs.len() == 0 ==> forall|a: int, b: int|
                0 <= a < b < plans.len() ==> #[trigger] plans[a].key != #[trigger] plans[b].key
            &&& errs.len() + plans.len() >= fs.len()
            &&& plans.len() <= fs.len()
            &&& errs.len() == 0 ==> plans.len() == fs.len() && forall|j: int|
                0 <= j < plans.len() ==> (#[trigger] plans[j]).index == j && Some(plans[j].ident)
                    == fs[j].ident
        }),
    decreases fs.len(),
{
    if fs.len() > 0 {
        lemma_field_scan(fs.drop_last());
        let (seen0, errs0, plans0) = field_scan(fs.drop_last());
        let (seen, errs, plans) = field_scan(fs);
        assert(errs.len() >= errs0.len());
        assert forall|j: int| 0 <= j < plans.len() implies seen.contains(#[trigger] plans[j].key) by {
            if j < plans0.len() {
                assert(plans[j] == plans0[j]);
                let k = choose|k: int| 0 <= k < seen0.len() && seen0[k] == plans0[j].key;
                assert(seen[k] == seen0[k]);
            } else {
                assert(seen[seen.len() - 1] == plans[j].key);
            }
        }
        if errs.len() == 0 {
            assert forall|j: int| 0 <= j < plans.len() implies (#[trigger] plans[j]).index == j
                && Some(plans[j].ident) == fs[j].ident by {
                if j < plans0.len() {
                    assert(plans[j] == plans0[j]);
                    assert(fs.drop_last()[j] == fs[j]);
                }
            }
            assert forall|a: int, b: int| 0 <= a < b < plans.len() implies #[trigger] plans[a].key
                != #[trigger] plans[b].key by {
                if b < plans0.len() {
                    assert(plans[a] == plans0[a]);
                    assert(plans[b] == plans0[b]);
                } else {
                    assert(plans[a] == plans0[a]);
                    assert(seen0.contains(plans0[a].key));
                }
            }
        }
    }
}

/// A Questions derive that succeeds plans every field, in field order, and
/// gives no two questions the same wire key.
pub proof fn lemma_question_keys_distinct(name: Seq<char>, items: Seq<ItemView>, fs: Seq<FieldView>)
    requires
        questions_outcome(name, items, fs) is Ok,
    ensures
        ({
            let plans = questions_outcome(name, items, fs)->Ok_0.1;
            &&& forall|a: int, b: int|
                0 <= a < b < plans.len() ==> #[trigger] plans[a].key != #[trigger] plans[b].key
            &&& plans.len() == fs.len()
            &&& forall|j: int|
                0 <= j < plans.len() ==> (#[trigger] plans[j]).index == j && Some(plans[j].ident)
                    == fs[j].ident
        }),
{
    lemma_field_scan(fs);
}

fn clone_opt(s: &Option<String>) -> (r: Option<String>)
    ensures
        r == *s,
{
    match s {
        Some(t) => Some(t.clone()),
        None => None,
    }
}

/// Plan a Questions derive for struct `name`: the answers struct's name and
/// one plan per field, or every refusal (an attribute refusal on the struct
/// stops at the first).
pub fn plan_questions(name: &str, items: &Vec<MetaItem>, fields: &Vec<FieldInput>) -> (r: Result<
    QuestionsPlan,
    Vec<DeriveError>,
>)
    ensures
        match questions_outcome(
            name@,
            items@.map_values(|it: MetaItem| it@),
            fields@.map_values(|f: FieldInput| f@),
        ) {
            Ok((answers, plans)) => r matches Ok(p) && p.answers@ == answers && p.fields@.map_values(
                |f: FieldPlan| f@,
            ) == plans,
            Err(errs) => r matches Err(es) && es@.map_values(|e: DeriveError| e@) == errs,
        },
{
    let attr = match parse_enum_attr(items) {
        Ok(a) => a,
        Err(e) => {
            let mut es: Vec<DeriveError> = Vec::new();
            es.push(refuse_attr(e, String::new()));
            proof {
                assert(es@.map_values(|e: DeriveError| e@) =~= seq![
                    (DeriveErrorKind::Attribute(e.kind), Seq::<char>::empty(), e.name@),
                ]);
            }
            return Err(es);
        },
    };
    let answers = match &attr.answers {
        Some(n) => n.clone(),
        None => {
            let mut s = name.to_owned();
            s.append("Answers");
            s
        },
    };
    let ghost fs = fields@.map_values(|f: FieldInput| f@);
    let n = fields.len();
    let mut seen: Vec<String> = Vec::new();
    let mut errs: Vec<DeriveError> = Vec::new();
    let mut plans: Vec<FieldPlan> = Vec::new();
    let mut i: usize = 0;
    while i < n
        invariant
            n == fields@.len(),
            fs == fields@.map_values(|f: FieldInput| f@),
            0 <= i <= n,
            field_scan(fs.take(i as int)) == (
                seen@.map_values(|t: String| t@),
                errs@.map_values(|e: DeriveError| e@),
                plans@.map_values(|p: FieldPlan| p@),
            ),
        decreases n - i,
    {
        proof {
            assert(fs.take(i + 1).drop_last() =~= fs.take(i as int));
            assert(fs.take(i + 1).last() == fields@[i as int]@);
        }
        let field = &fields[i];
        let ghost seen0 = seen@.map_values(|t: String| t@);
        let ghost errs0 = errs@.map_values(|e: DeriveError| e@);
        let ghost plans0 = plans@.map_values(|p: FieldPlan| p@);
        let ident = match &field.ident {
            Some(id) => id.as_str(),
            None => {
                errs.push(refuse_item(DeriveErrorKind::UnnamedField));
                proof {
                    assert(errs@.map_values(|e: DeriveError| e@) =~= errs0.push(
                        (DeriveErrorKind::UnnamedField, Seq::<char>::empty(), Seq::<char>::empty()),
                    ));
                }
                i = i + 1;
                continue;
            },
        };
        let fattr = match parse_field_attr(&field.attrs) {
            Ok(a) => a,
            Err(e) => {
                let ghost f = (DeriveErrorKind::Attribute(e.kind), ident@, e.name@);
                errs.push(refuse_attr(e, ident.to_owned()));
                proof {
                    assert(errs@.map_values(|e: DeriveError| e@) =~= errs0.push(f));
                }
                i = i + 1;
                continue;
            },
        };
        if fattr.flatten {
            errs.push(refuse_plain(DeriveErrorKind::Flatten, ident));
            proof {
                assert(errs@.map_values(|e: DeriveError| e@) =~= errs0.push(
                    (DeriveErrorKind::Flatten, ident@, Seq::<char>::empty()),
                ));
            }
            i = i + 1;
            continue;
        }
        let key = match &fattr.key {
            Some(k) => k.clone(),
            None => ident.to_owned(),
        };
        if contains_text(&seen, key.as_str()) {
            errs.push(refuse(DeriveErrorKind::DuplicateKey, ident, key.as_str()));
        }
        let ghost errs1 = errs@.map_values(|e: DeriveError| e@);
        proof {
            assert(errs1 =~= (if seen0.contains(key@) {
                errs0.push((DeriveErrorKind::DuplicateKey, ident@, key@))
            } else {
                errs0
            }));
        }
        seen.push(key.clone());
        proof {
            assert(seen@.map_values(|t: String| t@) =~= seen0.push(key@));
        }
        let is_bool = match &field.type_ident {
            Some(t) => same_text(t.as_str(), "bool"),
            None => false,
        };
        let primitive = match &field.type_ident {
            Some(t) => is_primitive(t.as_str()),
            None => false,
        };
        if is_bool {
            match &fattr.noul {
                None => {
                    errs.push(refuse_plain(DeriveErrorKind::BoolWithoutNoul, ident));
                    proof {
                        assert(errs@.map_values(|e: DeriveError| e@) =~= errs1.push(
                            (DeriveErrorKind::BoolWithoutNoul, ident@, Seq::<char>::empty()),
                        ));
                    }
                },
                Some(ins) => {
                    let kind = FieldKind::Noul {
                        instructions: ins.clone(),
                        true_means: clone_opt(&fattr.true_means),
                        false_means: clone_opt(&fattr.false_means),
                        optional: field.optional,
                    };
                    plans.push(FieldPlan { ident: ident.to_owned(), key, kind, index: i });
                    proof {
                        assert(plans@.map_values(|p: FieldPlan| p@) =~= plans0.push(
                            plans@[plans@.len() - 1]@,
                        ));
                    }
                },
            }
        } else if primitive {
            errs.push(refuse_plain(DeriveErrorKind::UnsupportedFieldType, ident));
            proof {
                assert(errs@.map_values(|e: DeriveError| e@) =~= errs1.push(
                    (DeriveErrorKind::UnsupportedFieldType, ident@, Seq::<char>::empty()),
                ));
            }
        } else {
            if fattr.noul.is_some() {
                errs.push(refuse_plain(DeriveErrorKind::NoulOnNonBool, ident));
            }
            proof {
                assert(errs@.map_values(|e: DeriveError| e@) =~= (if fattr@.noul is Some {
                    errs1.push((DeriveErrorKind::NoulOnNonBool, ident@, Seq::<char>::empty()))
                } else {
                    errs1
                }));
            }
            plans.push(
                FieldPlan {
                    ident: ident.to_owned(),
                    key,
                    kind: FieldKind::Typed { optional: field.optional },
                    index: i,
                },
            );
            proof {
                assert(plans@.map_values(|p: FieldPlan| p@) =~= plans0.push(
                    plans@[plans@.len() - 1]@,
                ));
            }
        }
        i = i + 1;
    }
    proof {
        assert(fs.take(n as int) =~= fs);
    }
    if errs.len() == 0 {
        Ok(QuestionsPlan { answers, fields: plans })
    } else {
        Err(errs)
    }
}

} // verus!
