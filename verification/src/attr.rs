//! The `#[s1(...)]` attribute language of the derives: which keys exist
//! on enums (and question-set structs), variants and fields, which take a
//! string and which stand alone.
//!
//! The items of every `#[s1(...)]` list are read from the tokens, in source
//! order, into [`MetaItem`]s; the first item that breaks the rules stops
//! the reading with an [`AttrError`].
use vstd::prelude::*;

use crate::rename::same_text;

verus! {

/// Shape of one item of an `#[s1(...)]` list.
#[derive(Clone, Copy, Debug, PartialEq, Eq)]
pub enum MetaForm {
    /// `name = "text"`.
    Str,
    /// `name` alone.
    Flag,
    /// `name = <not a string literal>`.
    NonStr,
    /// `name(...)`.
    List,
}

/// One item of an `#[s1(...)]` list.
#[derive(Clone, Debug)]
pub struct MetaItem {
    /// Shape of the item.
    pub form: MetaForm,
    /// The key (the whole path as written).
    pub name: String,
    /// The string value for [`MetaForm::Str`], else empty.
    pub value: String,
}

/// Why an attribute was refused.
#[derive(Clone, Copy, Debug, PartialEq, Eq)]
pub enum AttrErrorKind {
    /// The key is not one the position accepts.
    Unrecognized,
    /// A key that takes `= "text"` was given without `=`.
    MissingValue,
    /// A key that takes `= "text"` was given something other than a string.
    ExpectedString,
    /// A key that stands alone was given a value.
    UnexpectedValue,
    /// `#[s1]` on a variant, with no description.
    BareAttribute,
    /// `#[s1 = ...]` on a variant with something other than a string.
    NonStringDescription,
}

/// A refused attribute: what was wrong and with which key.
#[derive(Clone, Debug)]
pub struct AttrError {
    /// What was wrong.
    pub kind: AttrErrorKind,
    /// The key concerned (empty where there is none).
    pub name: String,
}

/// Attributes accepted on a Choice or Score enum, or a question-set struct.
#[derive(Debug)]
pub struct EnumAttr {
    /// `instructions = "..."`.
    pub instructions: Option<String>,
    /// `instructions_json = "..."`.
    pub instructions_json: Option<String>,
    /// `rename_all = "..."`.
    pub rename_all: Option<String>,
    /// `allow_empty_descriptions`.
    pub allow_empty_descriptions: bool,
    /// `answers = "..."` (name of the generated answers struct).
    pub answers: Option<String>,
}

/// Attributes accepted on a variant.
#[derive(Debug)]
pub struct VariantAttr {
    /// `label = "..."`.
    pub label: Option<String>,
    /// `desc = "..."`, `description = "..."`, `#[s1("...")]` or `#[s1 = "..."]`.
    pub desc: Option<String>,
    /// `desc_json = "..."`.
    pub desc_json: Option<String>,
}

/// Attributes accepted on a question-set field.
#[derive(Debug)]
pub struct FieldAttr {
    /// `noul = "..."`: the field is a yes/no question with these instructions.
    pub noul: Option<String>,
    /// `key = "..."`: the question id (default: the field name).
    pub key: Option<String>,
    /// `true_means = "..."`.
    pub true_means: Option<String>,
    /// `false_means = "..."`.
    pub false_means: Option<String>,
    /// `flatten`.
    pub flatten: bool,
}

/// One `#[s1...]` attribute of a variant, or one item of its list.
#[derive(Clone, Debug)]
pub enum VariantAttrForm {
    /// `#[s1("text")]`: the description.
    Literal(String),
    /// One item of `#[s1(key = "...", ...)]`.
    Item(MetaItem),
    /// `#[s1 = "text"]`: the description.
    NameValue(String),
    /// `#[s1 = <not a string>]`.
    NameValueOther,
    /// `#[s1]`.
    Path,
}

/// The characters of an optional string.
pub open spec fn opt_view(s: Option<String>) -> Option<Seq<char>> {
    match s {
        Some(t) => Some(t@),
        None => None,
    }
}

/// An item's key, value and shape.
pub struct ItemView {
    /// Shape.
    pub form: MetaForm,
    /// Key.
    pub name: Seq<char>,
    /// String value.
    pub value: Seq<char>,
}

impl View for MetaItem {
    type V = ItemView;

    open spec fn view(&self) -> ItemView {
        ItemView { form: self.form, name: self.name@, value: self.value@ }
    }
}

/// What [`EnumAttr`] holds.
pub struct EnumAttrView {
    /// `instructions`.
    pub instructions: Option<Seq<char>>,
    /// `instructions_json`.
    pub instructions_json: Option<Seq<char>>,
    /// `rename_all`.
    pub rename_all: Option<Seq<char>>,
    /// `allow_empty_descriptions`.
    pub allow_empty_descriptions: bool,
    /// `answers`.
    pub answers: Option<Seq<char>>,
}

impl View for EnumAttr {
    type V = EnumAttrView;

    open spec fn view(&self) -> EnumAttrView {
        EnumAttrView {
            instructions: opt_view(self.instructions),
            instructions_json: opt_view(self.instructions_json),
            rename_all: opt_view(self.rename_all),
            allow_empty_descriptions: self.allow_empty_descriptions,
            answers: opt_view(self.answers),
        }
    }
}

/// What [`VariantAttr`] holds.
pub struct VariantAttrView {
    /// `label`.
    pub label: Option<Seq<char>>,
    /// The description text.
    pub desc: Option<Seq<char>>,
    /// `desc_json`.
    pub desc_json: Option<Seq<char>>,
}

impl View for VariantAttr {
    type V = VariantAttrView;

    open spec fn view(&self) -> VariantAttrView {
        VariantAttrView {
            label: opt_view(self.label),
            desc: opt_view(self.desc),
            desc_json: opt_view(self.desc_json),
        }
    }
}

/// What [`FieldAttr`] holds.
pub struct FieldAttrView {
    /// `noul`.
    pub noul: Option<Seq<char>>,
    /// `key`.
    pub key: Option<Seq<char>>,
    /// `true_means`.
    pub true_means: Option<Seq<char>>,
    /// `false_means`.
    pub false_means: Option<Seq<char>>,
    /// `flatten`.
    pub flatten: bool,
}

impl View for FieldAttr {
    type V = FieldAttrView;

    open spec fn view(&self) -> FieldAttrView {
        FieldAttrView {
            noul: opt_view(self.noul),
            key: opt_view(self.key),
            true_means: opt_view(self.true_means),
            false_means: opt_view(self.false_means),
            flatten: self.flatten,
        }
    }
}

/// The error a key that takes `= "text"` gives for an item of another
/// shape (`None` for a string).
pub open spec fn value_key_error(form: MetaForm) -> Option<AttrErrorKind> {
    match form {
        MetaForm::Str => None,
        MetaForm::Flag => Some(AttrErrorKind::MissingValue),
        MetaForm::List => Some(AttrErrorKind::MissingValue),
        MetaForm::NonStr => Some(AttrErrorKind::ExpectedString),
    }
}

/// The error a key that stands alone gives for an item of another shape.
pub open spec fn flag_key_error(form: MetaForm) -> Option<AttrErrorKind> {
    match form {
        MetaForm::Flag => None,
        _ => Some(AttrErrorKind::UnexpectedValue),
    }
}

/// An error outcome: its kind and key.
pub type AttrFailure = (AttrErrorKind, Seq<char>);

/// Reading enum items `items` into `acc`.
pub open spec fn enum_items(acc: EnumAttrView, items: Seq<ItemView>) -> Result<EnumAttrView, AttrFailure>
    decreases items.len(),
{
    if items.len() == 0 {
        Ok(acc)
    } else {
        let it = items[0];
        let rest = items.drop_first();
        if it.name == "instructions"@ || it.name == "instructions_json"@ || it.name == "rename_all"@
            || it.name == "answers"@ {
            match value_key_error(it.form) {
                Some(k) => Err((k, it.name)),
                None => enum_items(
                    if it.name == "instructions"@ {
                        EnumAttrView { instructions: Some(it.value), ..acc }
                    } else if it.name == "instructions_json"@ {
                        EnumAttrView { instructions_json: Some(it.value), ..acc }
                    } else if it.name == "rename_all"@ {
                        EnumAttrView { rename_all: Some(it.value), ..acc }
                    } else {
                        EnumAttrView { answers: Some(it.value), ..acc }
                    },
                    rest,
                ),
            }
        } else if it.name == "allow_empty_descriptions"@ {
            match flag_key_error(it.form) {
                Some(k) => Err((k, it.name)),
                None => enum_items(EnumAttrView { allow_empty_descriptions: true, ..acc }, rest),
            }
        } else {
            Err((AttrErrorKind::Unrecognized, it.name))
        }
    }
}

/// Reading field items `items` into `acc`.
pub open spec fn field_items(acc: FieldAttrView, items: Seq<ItemView>) -> Result<FieldAttrView, AttrFailure>
    decreases items.len(),
{
    if items.len() == 0 {
        Ok(acc)
    } else {
        let it = items[0];
        let rest = items.drop_first();
        if it.name == "noul"@ || it.name == "key"@ || it.name == "true_means"@ || it.name
            == "false_means"@ {
            match value_key_error(it.form) {
                Some(k) => Err((k, it.name)),
                None => field_items(
                    if it.name == "noul"@ {
                        FieldAttrView { noul: Some(it.value), ..acc }
                    } else if it.name == "key"@ {
                        FieldAttrView { key: Some(it.value), ..acc }
                    } else if it.name == "true_means"@ {
                        FieldAttrView { true_means: Some(it.value), ..acc }
                    } else {
                        FieldAttrView { false_means: Some(it.value), ..acc }
                    },
                    rest,
                ),
            }
        } else if it.name == "flatten"@ {
            match flag_key_error(it.form) {
                Some(k) => Err((k, it.name)),
                None => field_items(FieldAttrView { flatten: true, ..acc }, rest),
            }
        } else {
            Err((AttrErrorKind::Unrecognized, it.name))
        }
    }
}

/// A variant attribute form, as seen by the rules.
pub enum FormView {
    /// Description literal.
    Literal(Seq<char>),
    /// A list item.
    Item(ItemView),
    /// `= "text"`.
    NameValue(Seq<char>),
    /// `= <other>`.
    NameValueOther,
    /// Bare `#[s1]`.
    Path,
}

impl View for VariantAttrForm {
    type V = FormView;

    open spec fn view(&self) -> FormView {
        match self {
            VariantAttrForm::Literal(s) => FormView::Literal(s@),
            VariantAttrForm::Item(it) => FormView::Item(it@),
            VariantAttrForm::NameValue(s) => FormView::NameValue(s@),
            VariantAttrForm::NameValueOther => FormView::NameValueOther,
            VariantAttrForm::Path => FormView::Path,
        }
    }
}

/// Reading variant forms `forms` into `acc`.
pub open spec fn variant_forms(acc: VariantAttrView, forms: Seq<FormView>) -> Result<VariantAttrView, AttrFailure>
    decreases forms.len(),
{
    if forms.len() == 0 {
        Ok(acc)
    } else {
        let rest = forms.drop_first();
        match forms[0] {
            FormView::Literal(s) => variant_forms(VariantAttrView { desc: Some(s), ..acc }, rest),
            FormView::NameValue(s) => variant_forms(VariantAttrView { desc: Some(s), ..acc }, rest),
            FormView::NameValueOther => Err((AttrErrorKind::NonStringDescription, Seq::empty())),
            FormView::Path => Err((AttrErrorKind::BareAttribute, Seq::empty())),
            FormView::Item(it) => {
                if it.name == "label"@ || it.name == "desc"@ || it.name == "description"@ || it.name
                    == "desc_json"@ {
                    match value_key_error(it.form) {
                        Some(k) => Err((k, it.name)),
                        None => variant_forms(
                            if it.name == "label"@ {
                                VariantAttrView { label: Some(it.value), ..acc }
                            } else if it.name == "desc_json"@ {
                                VariantAttrView { desc_json: Some(it.value), ..acc }
                            } else {
                                VariantAttrView { desc: Some(it.value), ..acc }
                            },
                            rest,
                        ),
                    }
                } else {
                    Err((AttrErrorKind::Unrecognized, it.name))
                }
            },
        }
    }
}

/// An outcome of reading attributes, seen through views.
pub open spec fn failure_of(e: AttrError) -> AttrFailure {
    (e.kind, e.name@)
}

fn value_check(item: &MetaItem) -> (r: Option<AttrError>)
    ensures
        match value_key_error(item.form) {
            None => r is None,
            Some(k) => r matches Some(e) && failure_of(e) == (k, item.name@),
        },
{
    match item.form {
        MetaForm::Str => None,
        MetaForm::Flag | MetaForm::List => Some(
            AttrError { kind: AttrErrorKind::MissingValue, name: item.name.clone() },
        ),
        MetaForm::NonStr => Some(
            AttrError { kind: AttrErrorKind::ExpectedString, name: item.name.clone() },
        ),
    }
}

fn flag_check(item: &MetaItem) -> (r: Option<AttrError>)
    ensures
        match flag_key_error(item.form) {
            None => r is None,
            Some(k) => r matches Some(e) && failure_of(e) == (k, item.name@),
        },
{
    match item.form {
        MetaForm::Flag => None,
        _ => Some(AttrError { kind: AttrErrorKind::UnexpectedValue, name: item.name.clone() }),
    }
}

fn unrecognized(item: &MetaItem) -> (e: AttrError)
    ensures
        failure_of(e) == (AttrErrorKind::Unrecognized, item.name@),
{
    AttrError { kind: AttrErrorKind::Unrecognized, name: item.name.clone() }
}

/// The view of the items `items[from..]`.
pub open spec fn items_from(items: Seq<MetaItem>, from: int) -> Seq<ItemView> {
    items.skip(from).map_values(|it: MetaItem| it@)
}

proof fn lemma_items_step(items: Seq<MetaItem>, i: int)
    requires
        0 <= i < items.len(),
    ensures
        items_from(items, i).len() > 0,
        items_from(items, i)[0] == items[i]@,
        items_from(items, i).drop_first() == items_from(items, i + 1),
{
    assert(items_from(items, i).drop_first() =~= items_from(items, i + 1));
}

/// Read the attributes of a Choice or Score enum (or question-set struct).
pub fn parse_enum_attr(items: &Vec<MetaItem>) -> (r: Result<EnumAttr, AttrError>)
    ensures
        match enum_items(
            EnumAttrView {
                instructions: None,
                instructions_json: None,
                rename_all: None,
                allow_empty_descriptions: false,
                answers: None,
            },
            items@.map_values(|it: MetaItem| it@),
        ) {
            Ok(v) => r matches Ok(a) && a@ == v,
            Err(f) => r matches Err(e) && failure_of(e) == f,
        },
{
    let mut out = EnumAttr {
        instructions: None,
        instructions_json: None,
        rename_all: None,
        allow_empty_descriptions: false,
        answers: None,
    };
    proof {
        assert(items@.skip(0) =~= items@);
    }
    let n = items.len();
    let mut i: usize = 0;
    while i < n
        invariant
            n == items@.len(),
            0 <= i <= n,
            enum_items(
                EnumAttrView {
                    instructions: None,
                    instructions_json: None,
                    rename_all: None,
                    allow_empty_descriptions: false,
                    answers: None,
                },
                items@.map_values(|it: MetaItem| it@),
            ) == enum_items(out@, items_from(items@, i as int)),
        decreases n - i,
    {
        proof {
            lemma_items_step(items@, i as int);
        }
        let item = &items[i];
        let name = item.name.as_str();
        if same_text(name, "instructions") || same_text(name, "instructions_json") || same_text(
            name,
            "rename_all",
        ) || same_text(name, "answers") {
            match value_check(item) {
                Some(e) => return Err(e),
                None => {},
            }
            let v = item.value.clone();
            if same_text(name, "instructions") {
                out.instructions = Some(v);
            } else if same_text(name, "instructions_json") {
                out.instructions_json = Some(v);
            } else if same_text(name, "rename_all") {
                out.rename_all = Some(v);
            } else {
                out.answers = Some(v);
            }
        } else if same_text(name, "allow_empty_descriptions") {
            match flag_check(item) {
                Some(e) => return Err(e),
                None => {},
            }
            out.allow_empty_descriptions = true;
        } else {
            return Err(unrecognized(item));
        }
        i = i + 1;
    }
    Ok(out)
}

/// Read the attributes of a question-set field.
pub fn parse_field_attr(items: &Vec<MetaItem>) -> (r: Result<FieldAttr, AttrError>)
    ensures
        match field_items(
            FieldAttrView {
                noul: None,
                key: None,
                true_means: None,
                false_means: None,
                flatten: false,
            },
            items@.map_values(|it: MetaItem| it@),
        ) {
            Ok(v) => r matches Ok(a) && a@ == v,
            Err(f) => r matches Err(e) && failure_of(e) == f,
        },
{
    let mut out = FieldAttr {
        noul: None,
        key: None,
        true_means: None,
        false_means: None,
        flatten: false,
    };
    proof {
        assert(items@.skip(0) =~= items@);
    }
    let n = items.len();
    let mut i: usize = 0;
    while i < n
        invariant
            n == items@.len(),
            0 <= i <= n,
            field_items(
                FieldAttrView {
                    noul: None,
                    key: None,
                    true_means: None,
                    false_means: None,
                    flatten: false,
                },
                items@.map_values(|it: MetaItem| it@),
            ) == field_items(out@, items_from(items@, i as int)),
        decreases n - i,
    {
        proof {
            lemma_items_step(items@, i as int);
        }
        let item = &items[i];
        let name = item.name.as_str();
        if same_text(name, "noul") || same_text(name, "key") || same_text(name, "true_means")
            || same_text(name, "false_means") {
            match value_check(item) {
                Some(e) => return Err(e),
                None => {},
            }
            let v = item.value.clone();
            if same_text(name, "noul") {
                out.noul = Some(v);
            } else if same_text(name, "key") {
                out.key = Some(v);
            } else if same_text(name, "true_means") {
                out.true_means = Some(v);
            } else {
                out.false_means = Some(v);
            }
        } else if same_text(name, "flatten") {
            match flag_check(item) {
                Some(e) => return Err(e),
                None => {},
            }
            out.flatten = true;
        } else {
            return Err(unrecognized(item));
        }
        i = i + 1;
    }
    Ok(out)
}

/// The view of the forms `forms[from..]`.
pub open spec fn forms_from(forms: Seq<VariantAttrForm>, from: int) -> Seq<FormView> {
    forms.skip(from).map_values(|f: VariantAttrForm| f@)
}

/// Read the attributes of a variant.
pub fn parse_variant_attr(forms: &Vec<VariantAttrForm>) -> (r: Result<VariantAttr, AttrError>)
    ensures
        match variant_forms(
            VariantAttrView { label: None, desc: None, desc_json: None },
            forms@.map_values(|f: VariantAttrForm| f@),
        ) {
            Ok(v) => r matches Ok(a) && a@ == v,
            Err(f) => r matches Err(e) && failure_of(e) == f,
        },
{
    let mut out = VariantAttr { label: None, desc: None, desc_json: None };
    proof {
        assert(forms@.skip(0) =~= forms@);
    }
    let n = forms.len();
    let mut i: usize = 0;
    while i < n
        invariant
            n == forms@.len(),
            0 <= i <= n,
            variant_forms(
                VariantAttrView { label: None, desc: None, desc_json: None },
                forms@.map_values(|f: VariantAttrForm| f@),
            ) == variant_forms(out@, forms_from(forms@, i as int)),
        decreases n - i,
    {
        proof {
            assert(forms_from(forms@, i as int).drop_first() =~= forms_from(forms@, i + 1));
            assert(forms_from(forms@, i as int)[0] == forms@[i as int]@);
        }
        match &forms[i] {
            VariantAttrForm::Literal(s) => {
                out.desc = Some(s.clone());
            },
            VariantAttrForm::NameValue(s) => {
                out.desc = Some(s.clone());
            },
            VariantAttrForm::NameValueOther => {
                return Err(
                    AttrError { kind: AttrErrorKind::NonStringDescription, name: String::new() },
                );
            },
            VariantAttrForm::Path => {
                return Err(AttrError { kind: AttrErrorKind::BareAttribute, name: String::new() });
            },
            VariantAttrForm::Item(item) => {
                let name = item.name.as_str();
                if same_text(name, "label") || same_text(name, "desc") || same_text(
                    name,
                    "description",
                ) || same_text(name, "desc_json") {
                    match value_check(item) {
                        Some(e) => return Err(e),
                        None => {},
                    }
                    let v = item.value.clone();
                    if same_text(name, "label") {
                        out.label = Some(v);
                    } else if same_text(name, "desc_json") {
                        out.desc_json = Some(v);
                    } else {
                        out.desc = Some(v);
                    }
                } else {
                    return Err(unrecognized(item));
                }
            },
        }
        i = i + 1;
    }
    Ok(out)
}

} // verus!
