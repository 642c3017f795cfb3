//! The shape checks a derive makes before it plans, and the message text
//! of every refusal.
use vstd::prelude::*;
use vstd::string::StrSliceExecFns;
use vstd::string::StringExecFns;

use crate::attr::AttrErrorKind;
use crate::derive::{DeriveError, DeriveErrorKind, Refusal};

verus! {

/// Which derive a refusal comes from.
#[derive(Clone, Copy, Debug, PartialEq, Eq, Structural)]
pub enum DeriveKind {
    /// `#[derive(Choice)]`.
    Choice,
    /// `#[derive(Score)]`.
    Score,
    /// `#[derive(Questions)]`.
    Questions,
}

/// The kind of item a derive is applied to.
#[derive(Clone, Copy, Debug, PartialEq, Eq)]
pub enum ItemShape {
    /// An enum.
    Enum,
    /// A struct with named fields.
    NamedStruct,
    /// A tuple or unit struct.
    OtherStruct,
    /// A union.
    Union,
}

/// The refusal of a derive on an item of this shape, if any: generic
/// parameters first, then the kind of item.
pub open spec fn shape_outcome(kind: DeriveKind, generic: bool, shape: ItemShape) -> Option<Refusal> {
    let none = Seq::<char>::empty();
    if generic {
        Some((DeriveErrorKind::GenericParameters, none, none))
    } else {
        match kind {
            DeriveKind::Questions => match shape {
                ItemShape::NamedStruct => None,
                ItemShape::OtherStruct => Some((DeriveErrorKind::UnnamedFields, none, none)),
                _ => Some((DeriveErrorKind::NotAStruct, none, none)),
            },
            _ => match shape {
                ItemShape::Enum => None,
                _ => Some((DeriveErrorKind::NotAnEnum, none, none)),
            },
        }
    }
}

fn bare(kind: DeriveErrorKind) -> (e: DeriveError)
    ensures
        e@ == (kind, Seq::<char>::empty(), Seq::<char>::empty()),
{
    DeriveError { kind, subject: String::new(), detail: String::new() }
}

/// Check the item a derive is applied to before planning it.
pub fn shape_refusal(kind: DeriveKind, generic: bool, shape: ItemShape) -> (r: Option<DeriveError>)
    ensures
        match shape_outcome(kind, generic, shape) {
            Some(f) => r matches Some(e) && e@ == f,
            None => r is None,
        },
{
    if generic {
        return Some(bare(DeriveErrorKind::GenericParameters));
    }
    match kind {
        DeriveKind::Questions => match shape {
            ItemShape::NamedStruct => None,
            ItemShape::OtherStruct => Some(bare(DeriveErrorKind::UnnamedFields)),
            _ => Some(bare(DeriveErrorKind::NotAStruct)),
        },
        _ => match shape {
            ItemShape::Enum => None,
            _ => Some(bare(DeriveErrorKind::NotAnEnum)),
        },
    }
}

/// What `format!("{:?}", s)` gives for the text `s` (quoted, escaped).
pub uninterp spec fn debug_str(s: Seq<char>) -> Seq<char>;

/// `<str as Debug>::fmt`, through `format!`.
#[verifier::external_body]
fn debug_text(s: &str) -> (r: String)
    ensures
        r@ == debug_str(s@),
{
    format!("{s:?}")
}

/// The `Display` text of the error `serde_json::from_str::<Value>` gives
/// for the text `s` (empty when `s` parses).
pub uninterp spec fn json_error_text(s: Seq<char>) -> Seq<char>;

/// `serde_json::from_str::<Value>`, keeping only its error's `Display`
/// text.
#[verifier::external_body]
fn json_error(s: &str) -> (r: String)
    ensures
        r@ == json_error_text(s@),
{
    match serde_json::from_str::<serde_json::Value>(s) {
        Ok(_) => String::new(),
        Err(e) => e.to_string(),
    }
}

/// The derive's name.
pub open spec fn kind_name(kind: DeriveKind) -> Seq<char> {
    match kind {
        DeriveKind::Choice => "Choice"@,
        DeriveKind::Score => "Score"@,
        DeriveKind::Questions => "Questions"@,
    }
}

/// The text of an attribute refusal: `subject` is the variant or field the
/// attribute sits on (empty on the item itself).
pub open spec fn attr_message_of(k: AttrErrorKind, kind: DeriveKind, subject: Seq<char>) -> Seq<char> {
    match k {
        AttrErrorKind::Unrecognized => if subject.len() == 0 {
            "unrecognized s1 attribute"@
        } else if kind == DeriveKind::Questions {
            "unrecognized s1 field attribute"@
        } else {
            "unrecognized s1 variant attribute"@
        },
        AttrErrorKind::MissingValue => "expected `=`"@,
        AttrErrorKind::ExpectedString => "expected string literal"@,
        AttrErrorKind::UnexpectedValue => "expected `,`"@,
        AttrErrorKind::BareAttribute => "expected #[s1(\"description\")] or #[s1(desc = \"...\")]"@,
        AttrErrorKind::NonStringDescription => "expected a string description"@,
    }
}

/// The text of refusal `r` of derive `kind`.
pub open spec fn message_of(r: Refusal, kind: DeriveKind) -> Seq<char> {
    let subject = r.1;
    let detail = r.2;
    let levels = kind == DeriveKind::Score;
    match r.0 {
        DeriveErrorKind::Attribute(k) => attr_message_of(k, kind, subject),
        DeriveErrorKind::TooFewVariants => if levels {
            "Score requires at least 2 levels"@
        } else {
            "Choice requires at least 2 variants"@
        },
        DeriveErrorKind::TooManyVariants => if levels {
            "Score supports at most 255 levels"@
        } else {
            "Choice supports at most 255 variants"@
        },
        DeriveErrorKind::InvalidInstructionsJson => "invalid instructions_json: "@ + json_error_text(detail),
        DeriveErrorKind::BothInstructions => "specify only one of instructions or instructions_json"@,
        DeriveErrorKind::MissingInstructions => "missing #[s1(instructions = \"...\")]"@,
        DeriveErrorKind::VariantHasFields => kind_name(kind) + " variants must be fieldless"@,
        DeriveErrorKind::UnsupportedRename => "unsupported rename_all = "@ + debug_str(detail)
            + "; try \"snake_case\""@,
        DeriveErrorKind::DuplicateLabel => "duplicate Choice label "@ + debug_str(detail),
        DeriveErrorKind::InvalidDescriptionJson => "invalid desc_json: "@ + json_error_text(detail),
        DeriveErrorKind::BothDescriptions => "specify only one of desc or desc_json"@,
        DeriveErrorKind::MissingDescription => (if levels {
            "level "@
        } else {
            "variant "@
        }) + subject + " needs a description: #[s1(\"...\")] (or set allow_empty_descriptions)"@,
        DeriveErrorKind::Flatten => "#[s1(flatten)] is not supported in s1 v0.1"@,
        DeriveErrorKind::DuplicateKey => "duplicate question key "@ + debug_str(detail),
        DeriveErrorKind::BoolWithoutNoul => "bool fields need #[s1(noul = \"...\")]"@,
        DeriveErrorKind::UnsupportedFieldType =>
            "unsupported field type for #[derive(Questions)]; use a Choice, a Score, or bool with #[s1(noul)]"@,
        DeriveErrorKind::NoulOnNonBool => "noul is only valid on bool fields"@,
        DeriveErrorKind::UnnamedField => "unnamed field is not supported"@,
        DeriveErrorKind::GenericParameters => "#[derive("@ + kind_name(kind) + ")] does not support generic types"@,
        DeriveErrorKind::NotAnEnum => "#[derive("@ + kind_name(kind) + ")] can only be used on enums"@,
        DeriveErrorKind::NotAStruct => "#[derive(Questions)] can only be used on structs"@,
        DeriveErrorKind::UnnamedFields => "#[derive(Questions)] requires a struct with named fields"@,
    }
}

fn name_of(kind: DeriveKind) -> (s: &'static str)
    ensures
        s@ == kind_name(kind),
{
    match kind {
        DeriveKind::Choice => "Choice",
        DeriveKind::Score => "Score",
        DeriveKind::Questions => "Questions",
    }
}

/// `a`, then `b`, then `c`.
fn join(a: &str, b: &str, c: &str) -> (s: String)
    ensures
        s@ == a@ + b@ + c@,
{
    let mut s = a.to_owned();
    s.append(b);
    s.append(c);
    s
}

/// `a`, then `b`.
fn join2(a: &str, b: &str) -> (s: String)
    ensures
        s@ == a@ + b@,
{
    let mut s = a.to_owned();
    s.append(b);
    s
}

fn text(a: &str) -> (s: String)
    ensures
        s@ == a@,
{
    a.to_owned()
}

/// The message a derive reports for refusal `e`.
pub fn refusal_message(e: &DeriveError, kind: DeriveKind) -> (m: String)
    ensures
        m@ == message_of(e@, kind),
{
    let levels = kind == DeriveKind::Score;
    let subject = e.subject.as_str();
    let detail = e.detail.as_str();
    match e.kind {
        DeriveErrorKind::Attribute(k) => match k {
            AttrErrorKind::Unrecognized => if subject.unicode_len() == 0 {
                text("unrecognized s1 attribute")
            } else if kind == DeriveKind::Questions {
                text("unrecognized s1 field attribute")
            } else {
                text("unrecognized s1 variant attribute")
            },
            AttrErrorKind::MissingValue => text("expected `=`"),
            AttrErrorKind::ExpectedString => text("expected string literal"),
            AttrErrorKind::UnexpectedValue => text("expected `,`"),
            AttrErrorKind::BareAttribute => text("expected #[s1(\"description\")] or #[s1(desc = \"...\")]"),
            AttrErrorKind::NonStringDescription => text("expected a string description"),
        },
        DeriveErrorKind::TooFewVariants => if levels {
            text("Score requires at least 2 levels")
        } else {
            text("Choice requires at least 2 variants")
        },
        DeriveErrorKind::TooManyVariants => if levels {
            text("Score supports at most 255 levels")
        } else {
            text("Choice supports at most 255 variants")
        },
        DeriveErrorKind::InvalidInstructionsJson => {
            let t = json_error(detail);
            join2("invalid instructions_json: ", t.as_str())
        },
        DeriveErrorKind::BothInstructions => text("specify only one of instructions or instructions_json"),
        DeriveErrorKind::MissingInstructions => text("missing #[s1(instructions = \"...\")]"),
        DeriveErrorKind::VariantHasFields => join2(name_of(kind), " variants must be fieldless"),
        DeriveErrorKind::UnsupportedRename => {
            let d = debug_text(detail);
            join("unsupported rename_all = ", d.as_str(), "; try \"snake_case\"")
        },
        DeriveErrorKind::DuplicateLabel => {
            let d = debug_text(detail);
            join2("duplicate Choice label ", d.as_str())
        },
        DeriveErrorKind::InvalidDescriptionJson => {
            let t = json_error(detail);
            join2("invalid desc_json: ", t.as_str())
        },
        DeriveErrorKind::BothDescriptions => text("specify only one of desc or desc_json"),
        DeriveErrorKind::MissingDescription => {
            let head = if levels {
                "level "
            } else {
                "variant "
            };
            join(head, subject, " needs a description: #[s1(\"...\")] (or set allow_empty_descriptions)")
        },
        DeriveErrorKind::Flatten => text("#[s1(flatten)] is not supported in s1 v0.1"),
        DeriveErrorKind::DuplicateKey => {
            let d = debug_text(detail);
            join2("duplicate question key ", d.as_str())
        },
        DeriveErrorKind::BoolWithoutNoul => text("bool fields need #[s1(noul = \"...\")]"),
        DeriveErrorKind::UnsupportedFieldType => text(
            "unsupported field type for #[derive(Questions)]; use a Choice, a Score, or bool with #[s1(noul)]",
        ),
        DeriveErrorKind::NoulOnNonBool => text("noul is only valid on bool fields"),
        DeriveErrorKind::UnnamedField => text("unnamed field is not supported"),
        DeriveErrorKind::GenericParameters => join("#[derive(", name_of(kind), ")] does not support generic types"),
        DeriveErrorKind::NotAnEnum => join("#[derive(", name_of(kind), ")] can only be used on enums"),
        DeriveErrorKind::NotAStruct => text("#[derive(Questions)] can only be used on structs"),
        DeriveErrorKind::UnnamedFields => text("#[derive(Questions)] requires a struct with named fields"),
    }
}

} // verus!
