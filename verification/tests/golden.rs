#![allow(dead_code)]

use indexmap::IndexMap;
use s1::attr::{parse_enum_attr, parse_field_attr, parse_variant_attr, AttrErrorKind, MetaForm, MetaItem, VariantAttrForm};
use s1::binary64::{eq, finite, ge, gt, le, lt, nan, round_clamped, whole_number};
use s1::derive::{is_primitive, plan_enum, plan_questions, DeriveErrorKind, FieldInput, FieldKind, TextSource, VariantInput};
use s1::refusal::{refusal_message, shape_refusal, DeriveKind, ItemShape};
use s1::rename::{apply, same_text, to_camel_case, to_snake_case};
use s1::text::decimal;
use s1::{
    AnswerMeta, ChoiceAnswer, ChoiceQuestion, DecodeError, Description, Entry, Instructions, NoulCriteria, Question,
    QuestionField, QuestionSet, ScoreQuestion, WireQuestions, WireResponse,
};

fn bits(x: f64) -> u64 {
    x.to_bits()
}

fn text(e: &Entry) -> Option<&str> {
    match e {
        Entry::Text(s) => Some(s.as_ref()),
        _ => None,
    }
}

fn item(name: &str, value: &str) -> MetaItem {
    MetaItem { form: MetaForm::Str, name: name.into(), value: value.into() }
}

fn flag(name: &str) -> MetaItem {
    MetaItem { form: MetaForm::Flag, name: name.into(), value: String::new() }
}

fn variant(ident: &str, attrs: Vec<VariantAttrForm>) -> VariantInput {
    VariantInput { ident: ident.into(), has_fields: false, attrs }
}

fn described(ident: &str, desc: &str) -> VariantInput {
    variant(ident, vec![VariantAttrForm::Literal(desc.into())])
}

fn field(ident: &str, ty: &str, attrs: Vec<MetaItem>) -> FieldInput {
    FieldInput { ident: Some(ident.into()), attrs, optional: false, type_ident: Some(ty.into()) }
}

// ---- a hand-written Choice / Score pair as the derives would emit ----

#[derive(Clone, Copy, Debug, PartialEq, Eq)]
enum Department {
    Billing,
    Technical,
    Sales,
}

impl ChoiceQuestion for Department {
    fn instructions() -> Instructions {
        Instructions::Text("Which team should handle this ticket?")
    }
    fn variants() -> Vec<Self> {
        vec![Department::Billing, Department::Technical, Department::Sales]
    }
    fn label(self) -> &'static str {
        match self {
            Department::Billing => "billing",
            Department::Technical => "technical",
            Department::Sales => "sales",
        }
    }
    fn description(self) -> Description {
        match self {
            Department::Billing => Description::Text("Payment, invoice, refund, or subscription issues"),
            Department::Technical => Description::Text("Bugs, errors, or integration problems"),
            Department::Sales => Description::Text("Pricing or plan questions"),
        }
    }
    fn from_label(label: &str) -> Option<Self> {
        match label {
            "billing" => Some(Department::Billing),
            "technical" => Some(Department::Technical),
            "sales" => Some(Department::Sales),
            _ => None,
        }
    }
    fn index(self) -> usize {
        match self {
            Department::Billing => 0,
            Department::Technical => 1,
            Department::Sales => 2,
        }
    }
}

#[derive(Clone, Copy, Debug, PartialEq, Eq)]
enum Frustration {
    Calm,
    Annoyed,
    Furious,
}

impl ScoreQuestion for Frustration {
    fn instructions() -> Instructions {
        Instructions::Text("How frustrated does the customer appear?")
    }
    fn levels() -> Vec<Self> {
        vec![Frustration::Calm, Frustration::Annoyed, Frustration::Furious]
    }
    fn level_description(self) -> Description {
        match self {
            Frustration::Calm => Description::Text("Calm, just stating facts"),
            Frustration::Annoyed => Description::Text("Frustrated but civil"),
            Frustration::Furious => Description::Text("Angry, strong language"),
        }
    }
    fn index(self) -> usize {
        match self {
            Frustration::Calm => 0,
            Frustration::Annoyed => 1,
            Frustration::Furious => 2,
        }
    }
    fn from_index(i: usize) -> Option<Self> {
        match i {
            0 => Some(Frustration::Calm),
            1 => Some(Frustration::Annoyed),
            2 => Some(Frustration::Furious),
            _ => None,
        }
    }
}

#[test]
fn choice_labels_are_snake_case_by_default() {
    assert_eq!(Department::Billing.label(), "billing");
    assert_eq!(Department::Technical.label(), "technical");
    assert_eq!(Department::from_label("sales"), Some(Department::Sales));
    assert_eq!(Department::from_label("Sales"), None);
}

#[test]
fn score_index_follows_declaration_order() {
    assert_eq!(Frustration::Calm.index(), 0);
    assert_eq!(Frustration::Annoyed.index(), 1);
    assert_eq!(Frustration::Furious.index(), 2);
    assert_eq!(Frustration::from_index(1), Some(Frustration::Annoyed));
}

#[test]
fn choice_question_criteria_follow_variant_order() {
    match Question::from_choice::<Department>() {
        Question::Choice { instructions, criteria } => {
            assert_eq!(text(&instructions), Some("Which team should handle this ticket?"));
            let labels: Vec<&str> = criteria.keys().map(|k| k.as_str()).collect();
            assert_eq!(labels, vec!["billing", "technical", "sales"]);
            assert_eq!(text(&criteria["sales"]), Some("Pricing or plan questions"));
        }
        _ => panic!("expected a choice question"),
    }
}

#[test]
fn score_question_criteria_follow_level_order() {
    match Question::from_score::<Frustration>() {
        Question::Score { instructions, criteria } => {
            assert_eq!(text(&instructions), Some("How frustrated does the customer appear?"));
            let texts: Vec<Option<&str>> = criteria.iter().map(text).collect();
            assert_eq!(
                texts,
                vec![Some("Calm, just stating facts"), Some("Frustrated but civil"), Some("Angry, strong language")]
            );
        }
        _ => panic!("expected a score question"),
    }
}

// ---- custom label and key ----

#[derive(Clone, Copy, Debug, PartialEq, Eq)]
enum Team {
    Billing,
    Technical,
}

impl ChoiceQuestion for Team {
    fn instructions() -> Instructions {
        Instructions::Text("Which team?")
    }
    fn variants() -> Vec<Self> {
        vec![Team::Billing, Team::Technical]
    }
    fn label(self) -> &'static str {
        match self {
            Team::Billing => "billing",
            Team::Technical => "tech",
        }
    }
    fn description(self) -> Description {
        match self {
            Team::Billing => Description::Text("Payment or subscription issues"),
            Team::Technical => Description::Text("Bugs or integration problems"),
        }
    }
    fn from_label(label: &str) -> Option<Self> {
        match label {
            "billing" => Some(Team::Billing),
            "tech" => Some(Team::Technical),
            _ => None,
        }
    }
    fn index(self) -> usize {
        match self {
            Team::Billing => 0,
            Team::Technical => 1,
        }
    }
}

impl QuestionField for Team {
    type Answer = ChoiceAnswer<Team>;
    fn wire_question() -> Question {
        Question::from_choice::<Team>()
    }
    fn decode_field(key: &str, resp: &WireResponse, meta: &mut AnswerMeta) -> Result<Self::Answer, DecodeError> {
        ChoiceAnswer::decode(key, resp, meta)
    }
}

struct Ticket;

impl QuestionSet for Ticket {
    type Answers = ();
    fn questions() -> WireQuestions {
        let mut q: WireQuestions = IndexMap::new();
        q.insert("dept".to_string(), <Team as QuestionField>::wire_question());
        q.insert(
            "competitor".to_string(),
            Question::noul(
                Entry::Text("Mentions a competitor".into()),
                Some(Entry::Text("Names a competing product".into())),
                Some(Entry::Text("No competitor named".into())),
            ),
        );
        q
    }
    fn decode(_resp: &WireResponse) -> Result<(), DecodeError> {
        Ok(())
    }
}

#[test]
fn custom_label_and_key_round_trip_on_the_wire() {
    // The plan a Choice derive makes of `Team`.
    let plan = plan_enum(
        &vec![item("instructions", "Which team?"), item("rename_all", "snake_case")],
        &vec![
            described("Billing", "Payment or subscription issues"),
            variant(
                "Technical",
                vec![
                    VariantAttrForm::Item(item("label", "tech")),
                    VariantAttrForm::Item(item("desc", "Bugs or integration problems")),
                ],
            ),
        ],
        true,
    )
    .expect("plan");
    let labels: Vec<&str> = plan.variants.iter().map(|v| v.label.as_str()).collect();
    assert_eq!(labels, vec!["billing", "tech"]);
    // The plan a Questions derive makes of `Ticket`.
    let qplan = plan_questions(
        "Ticket",
        &vec![],
        &vec![
            field("team", "Team", vec![item("key", "dept")]),
            field(
                "competitor",
                "bool",
                vec![
                    item("noul", "Mentions a competitor"),
                    item("true_means", "Names a competing product"),
                    item("false_means", "No competitor named"),
                ],
            ),
        ],
    )
    .expect("plan");
    let keys: Vec<&str> = qplan.fields.iter().map(|f| f.key.as_str()).collect();
    assert_eq!(keys, vec!["dept", "competitor"]);

    let q = Ticket::questions();
    match &q["dept"] {
        Question::Choice { criteria, .. } => {
            assert_eq!(text(&criteria["billing"]), Some("Payment or subscription issues"));
            assert_eq!(text(&criteria["tech"]), Some("Bugs or integration problems"));
            assert!(criteria.get("technical").is_none());
        }
        _ => panic!("dept should be a choice question"),
    }
    match &q["competitor"] {
        Question::Noul { criteria: Some(NoulCriteria { when_true, when_false }), .. } => {
            assert_eq!(when_true.as_ref().and_then(text), Some("Names a competing product"));
            assert_eq!(when_false.as_ref().and_then(text), Some("No competitor named"));
        }
        _ => panic!("competitor should be a noul question with criteria"),
    }
    for v in Team::variants() {
        assert_eq!(Team::from_label(v.label()), Some(v));
    }
}

#[test]
fn noul_question_without_criteria_omits_them() {
    match Question::noul(Entry::Text("urgent?".into()), None, None) {
        Question::Noul { criteria, .. } => assert!(criteria.is_none()),
        _ => panic!("expected noul"),
    }
}

#[test]
fn json_instructions_parse_or_fall_back_to_text() {
    match Instructions::Json("{\"a\": 1}").to_entry() {
        Entry::Json(v) => assert_eq!(v["a"], serde_json::Value::from(1)),
        _ => panic!("expected parsed JSON"),
    }
    match Instructions::Json("{not json").to_entry() {
        Entry::Text(s) => assert_eq!(s, "{not json"),
        _ => panic!("expected the raw text"),
    }
    assert!(matches!(Description::Null.to_entry(), Entry::Null));
}

// ---- derive planning ----

#[test]
fn department_plan_matches_the_hand_written_impl() {
    let plan = plan_enum(
        &vec![item("instructions", "Which team should handle this ticket?")],
        &vec![
            described("Billing", "Payment, invoice, refund, or subscription issues"),
            described("Technical", "Bugs, errors, or integration problems"),
            described("Sales", "Pricing or plan questions"),
        ],
        true,
    )
    .expect("plan");
    assert!(matches!(&plan.instructions, TextSource::Text(t) if t == "Which team should handle this ticket?"));
    for (i, v) in plan.variants.iter().enumerate() {
        assert_eq!(v.index, i);
        let d = Department::variants()[i];
        assert_eq!(v.label, d.label());
    }
}

#[test]
fn duplicate_labels_are_refused() {
    let r = plan_enum(
        &vec![item("instructions", "pick one")],
        &vec![
            variant("A", vec![VariantAttrForm::Item(item("label", "same")), VariantAttrForm::Item(item("desc", "a"))]),
            variant("B", vec![VariantAttrForm::Item(item("label", "same")), VariantAttrForm::Item(item("desc", "b"))]),
        ],
        true,
    );
    let errs = r.expect_err("duplicate labels");
    assert!(errs.iter().any(|e| e.kind == DeriveErrorKind::DuplicateLabel && e.subject == "B"));
}

#[test]
fn too_few_variants_are_refused() {
    let r = plan_enum(&vec![item("instructions", "only one")], &vec![described("A", "a")], true);
    let errs = r.expect_err("too few");
    assert!(errs.iter().any(|e| e.kind == DeriveErrorKind::TooFewVariants));
}

#[test]
fn variant_with_fields_is_refused() {
    let mut a = described("A", "has a field");
    a.has_fields = true;
    let r = plan_enum(&vec![item("instructions", "pick one")], &vec![a, described("B", "ok")], true);
    let errs = r.expect_err("fields");
    assert!(errs.iter().any(|e| e.kind == DeriveErrorKind::VariantHasFields && e.subject == "A"));
}

#[test]
fn missing_instructions_and_description_are_refused() {
    let r = plan_enum(&vec![], &vec![described("A", "a"), described("B", "b")], true);
    let errs = r.expect_err("refused");
    assert!(errs.iter().any(|e| e.kind == DeriveErrorKind::MissingInstructions));
    let r = plan_enum(&vec![item("instructions", "pick")], &vec![described("A", "a"), variant("B", vec![])], true);
    let errs = r.expect_err("refused");
    assert!(errs.iter().any(|e| e.kind == DeriveErrorKind::MissingDescription && e.subject == "B"));
    let ok = plan_enum(
        &vec![item("instructions", "pick"), flag("allow_empty_descriptions")],
        &vec![described("A", "a"), variant("B", vec![])],
        true,
    )
    .expect("empty descriptions allowed");
    assert!(matches!(ok.variants[1].description, TextSource::Null));
}

#[test]
fn unsupported_rename_rule_is_refused() {
    let r = plan_enum(
        &vec![item("instructions", "pick"), item("rename_all", "Train-Case")],
        &vec![described("A", "a"), described("B", "b")],
        true,
    );
    let errs = r.expect_err("refused");
    assert!(errs.iter().any(|e| e.kind == DeriveErrorKind::UnsupportedRename));
}

#[test]
fn bool_without_noul_is_refused() {
    let r = plan_questions("Bad", &vec![], &vec![field("side", "Side", vec![]), field("flag", "bool", vec![])]);
    let errs = r.expect_err("refused");
    assert!(errs.iter().any(|e| e.kind == DeriveErrorKind::BoolWithoutNoul && e.subject == "flag"));
}

#[test]
fn duplicate_keys_and_primitive_fields_are_refused() {
    let r = plan_questions(
        "Bad",
        &vec![],
        &vec![
            field("a", "Side", vec![item("key", "k")]),
            field("b", "Side", vec![item("key", "k")]),
            field("n", "u32", vec![]),
            field("s", "Side", vec![item("noul", "yes?")]),
        ],
    );
    let errs = r.expect_err("refused");
    assert!(errs.iter().any(|e| e.kind == DeriveErrorKind::DuplicateKey && e.subject == "b"));
    assert!(errs.iter().any(|e| e.kind == DeriveErrorKind::UnsupportedFieldType && e.subject == "n"));
    assert!(errs.iter().any(|e| e.kind == DeriveErrorKind::NoulOnNonBool && e.subject == "s"));
}

#[test]
fn questions_plan_names_answers_and_keeps_field_order() {
    let plan = plan_questions(
        "Triage",
        &vec![],
        &vec![
            field("department", "Department", vec![]),
            field("frustration", "Frustration", vec![]),
            field("urgent", "bool", vec![item("noul", "The message conveys urgency or time pressure")]),
        ],
    )
    .expect("plan");
    assert_eq!(plan.answers, "TriageAnswers");
    let keys: Vec<&str> = plan.fields.iter().map(|f| f.key.as_str()).collect();
    assert_eq!(keys, vec!["department", "frustration", "urgent"]);
    assert!(matches!(&plan.fields[2].kind, FieldKind::Noul { instructions, .. }
        if instructions == "The message conveys urgency or time pressure"));
    let named = plan_questions("T", &vec![item("answers", "Out")], &vec![field("d", "D", vec![])]).expect("plan");
    assert_eq!(named.answers, "Out");
}

#[test]
fn primitive_type_names() {
    assert!(is_primitive("u32"));
    assert!(is_primitive("String"));
    assert!(!is_primitive("Department"));
    assert!(!is_primitive("bool"));
}

// ---- attributes ----

#[test]
fn attribute_keys_are_checked_by_position() {
    let e = parse_enum_attr(&vec![item("label", "x")]).expect_err("label is not an enum key");
    assert_eq!(e.kind, AttrErrorKind::Unrecognized);
    assert_eq!(e.name, "label");
    let e = parse_enum_attr(&vec![MetaItem { form: MetaForm::Flag, name: "instructions".into(), value: String::new() }])
        .expect_err("needs a value");
    assert_eq!(e.kind, AttrErrorKind::MissingValue);
    let e = parse_enum_attr(&vec![MetaItem { form: MetaForm::NonStr, name: "rename_all".into(), value: String::new() }])
        .expect_err("needs a string");
    assert_eq!(e.kind, AttrErrorKind::ExpectedString);
    let e = parse_enum_attr(&vec![item("allow_empty_descriptions", "yes")]).expect_err("flag takes no value");
    assert_eq!(e.kind, AttrErrorKind::UnexpectedValue);
    let a = parse_enum_attr(&vec![item("instructions", "x"), item("answers", "Out")]).expect("ok");
    assert_eq!(a.instructions.as_deref(), Some("x"));
    assert_eq!(a.answers.as_deref(), Some("Out"));

    let f = parse_field_attr(&vec![item("key", "dept"), flag("flatten")]).expect("ok");
    assert_eq!(f.key.as_deref(), Some("dept"));
    assert!(f.flatten);
    let e = parse_field_attr(&vec![item("desc", "x")]).expect_err("not a field key");
    assert_eq!(e.kind, AttrErrorKind::Unrecognized);
}

#[test]
fn variant_attribute_forms() {
    let v = parse_variant_attr(&vec![VariantAttrForm::Literal("d".into())]).expect("ok");
    assert_eq!(v.desc.as_deref(), Some("d"));
    let v = parse_variant_attr(&vec![VariantAttrForm::NameValue("d".into())]).expect("ok");
    assert_eq!(v.desc.as_deref(), Some("d"));
    let v = parse_variant_attr(&vec![VariantAttrForm::Item(item("description", "d")), VariantAttrForm::Item(item("label", "l"))])
        .expect("ok");
    assert_eq!(v.desc.as_deref(), Some("d"));
    assert_eq!(v.label.as_deref(), Some("l"));
    let e = parse_variant_attr(&vec![VariantAttrForm::Path]).expect_err("bare");
    assert_eq!(e.kind, AttrErrorKind::BareAttribute);
    let e = parse_variant_attr(&vec![VariantAttrForm::NameValueOther]).expect_err("not a string");
    assert_eq!(e.kind, AttrErrorKind::NonStringDescription);
}

// ---- renaming ----

#[test]
fn rename_rules() {
    assert_eq!(to_snake_case("HTTPServer"), "http_server");
    assert_eq!(to_snake_case("BillingIssue"), "billing_issue");
    assert_eq!(to_camel_case("BillingIssue"), "billingIssue");
    assert_eq!(apply("BillingIssue", "snake_case").as_deref(), Some("billing_issue"));
    assert_eq!(apply("BillingIssue", "kebab-case").as_deref(), Some("billing-issue"));
    assert_eq!(apply("BillingIssue", "SCREAMING_SNAKE_CASE").as_deref(), Some("BILLING_ISSUE"));
    assert_eq!(apply("BillingIssue", "lowercase").as_deref(), Some("billingissue"));
    assert_eq!(apply("BillingIssue", "UPPERCASE").as_deref(), Some("BILLINGISSUE"));
    assert_eq!(apply("BillingIssue", "PascalCase").as_deref(), Some("BillingIssue"));
    assert_eq!(apply("BillingIssue", "camelCase").as_deref(), Some("billingIssue"));
    assert_eq!(apply("BillingIssue", "none").as_deref(), Some("BillingIssue"));
    assert_eq!(apply("BillingIssue", "Train-Case"), None);
    assert!(same_text("abc", "abc"));
    assert!(!same_text("abc", "abd"));
}

// ---- binary64 comparisons and rounding ----

#[test]
fn binary64_comparisons_follow_ieee() {
    assert!(le(bits(0.5), bits(0.5)));
    assert!(lt(bits(-1.0), bits(0.25)));
    assert!(gt(bits(2.0), bits(1.5)));
    assert!(ge(bits(0.0), bits(-0.0)));
    assert!(eq(bits(0.0), bits(-0.0)));
    assert!(!le(bits(f64::NAN), bits(1.0)));
    assert!(!ge(bits(f64::NAN), bits(1.0)));
    assert!(nan(bits(f64::NAN)));
    assert!(!finite(bits(f64::INFINITY)));
    assert!(finite(bits(-3.5)));
    assert!(lt(bits(f64::NEG_INFINITY), bits(-1e300)));
}

#[test]
fn rounding_to_a_clamped_index() {
    assert_eq!(round_clamped(bits(1.2), 2), 1);
    assert_eq!(round_clamped(bits(1.5), 2), 2);
    assert_eq!(round_clamped(bits(2.5), 5), 3);
    assert_eq!(round_clamped(bits(9.0), 2), 2);
    assert_eq!(round_clamped(bits(-4.0), 2), 0);
    assert_eq!(round_clamped(bits(f64::NAN), 2), 0);
    assert_eq!(round_clamped(bits(f64::INFINITY), 7), 7);
    assert_eq!(round_clamped(bits(0.49999999999999994), 3), 0);
}

#[test]
fn whole_numbers_are_exact() {
    for k in [0u64, 1, 2, 3, 7, 255, 1 << 40, (1 << 53) - 1] {
        assert_eq!(f64::from_bits(whole_number(k)), k as f64);
    }
}

#[test]
fn decimal_text() {
    assert_eq!(decimal(0), "0");
    assert_eq!(decimal(7), "7");
    assert_eq!(decimal(10), "10");
    assert_eq!(decimal(1234567), "1234567");
}

#[test]
fn refusal_messages_name_the_problem() {
    let r = plan_questions("Bad", &vec![], &vec![field("side", "Side", vec![]), field("flag", "bool", vec![])]);
    let errs = r.expect_err("refused");
    assert_eq!(refusal_message(&errs[0], DeriveKind::Questions), "bool fields need #[s1(noul = \"...\")]");
    let r = plan_enum(
        &vec![item("instructions", "pick one")],
        &vec![
            variant("A", vec![VariantAttrForm::Item(item("label", "same")), VariantAttrForm::Item(item("desc", "a"))]),
            variant("B", vec![VariantAttrForm::Item(item("label", "same")), VariantAttrForm::Item(item("desc", "b"))]),
        ],
        true,
    );
    let errs = r.expect_err("refused");
    assert_eq!(refusal_message(&errs[0], DeriveKind::Choice), "duplicate Choice label \"same\"");
    let r = plan_enum(&vec![item("instructions", "only one")], &vec![described("A", "a")], false);
    let errs = r.expect_err("refused");
    assert_eq!(refusal_message(&errs[0], DeriveKind::Score), "Score requires at least 2 levels");
    let r = plan_enum(&vec![item("instructions", "pick")], &vec![described("A", "a"), variant("B", vec![])], false);
    let errs = r.expect_err("refused");
    assert_eq!(
        refusal_message(&errs[0], DeriveKind::Score),
        "level B needs a description: #[s1(\"...\")] (or set allow_empty_descriptions)"
    );
}

#[test]
fn item_shape_refusals() {
    assert!(shape_refusal(DeriveKind::Choice, false, ItemShape::Enum).is_none());
    assert!(shape_refusal(DeriveKind::Questions, false, ItemShape::NamedStruct).is_none());
    let e = shape_refusal(DeriveKind::Choice, true, ItemShape::Enum).expect("generic");
    assert_eq!(e.kind, DeriveErrorKind::GenericParameters);
    assert_eq!(refusal_message(&e, DeriveKind::Choice), "#[derive(Choice)] does not support generic types");
    let e = shape_refusal(DeriveKind::Score, false, ItemShape::NamedStruct).expect("not an enum");
    assert_eq!(refusal_message(&e, DeriveKind::Score), "#[derive(Score)] can only be used on enums");
    let e = shape_refusal(DeriveKind::Questions, false, ItemShape::Enum).expect("not a struct");
    assert_eq!(refusal_message(&e, DeriveKind::Questions), "#[derive(Questions)] can only be used on structs");
    let e = shape_refusal(DeriveKind::Questions, false, ItemShape::OtherStruct).expect("tuple struct");
    assert_eq!(
        refusal_message(&e, DeriveKind::Questions),
        "#[derive(Questions)] requires a struct with named fields"
    );
}

#[test]
fn snake_case_of_ascii_lowercases_and_only_adds_underscores() {
    for ident in ["BillingIssue", "HTTPServer", "A", "xYz", "Sales2Go", "already_snake"] {
        let r = to_snake_case(ident);
        if !ident.contains('_') {
            assert_eq!(r.replace('_', ""), ident.to_ascii_lowercase());
            assert!(!r.starts_with('_'));
        }
        assert!(!r.chars().any(|c| c.is_ascii_uppercase()));
    }
}

#[test]
fn snake_case_places_underscores_at_word_starts() {
    assert_eq!(to_snake_case("Billing"), "billing");
    assert_eq!(to_snake_case("IOError"), "io_error");
    assert_eq!(to_snake_case("MyHTTP"), "my_http");
    assert_eq!(to_snake_case("already_snake"), "already_snake");
    for ident in ["Billing", "IOError", "MyHTTP", "HTTPServer"] {
        let once = to_snake_case(ident);
        assert_eq!(to_snake_case(&once), once);
    }
}

#[test]
fn invalid_json_messages_carry_the_parse_error() {
    let r = plan_enum(
        &vec![item("instructions_json", "{bad")],
        &vec![described("A", "a"), described("B", "b")],
        true,
    );
    let errs = r.expect_err("refused");
    assert_eq!(errs[0].kind, DeriveErrorKind::InvalidInstructionsJson);
    let reason = serde_json::from_str::<serde_json::Value>("{bad").expect_err("not JSON").to_string();
    assert_eq!(refusal_message(&errs[0], DeriveKind::Choice), format!("invalid instructions_json: {reason}"));
    let r = plan_enum(
        &vec![item("instructions", "pick")],
        &vec![described("A", "a"), variant("B", vec![VariantAttrForm::Item(item("desc_json", "[1,"))])],
        true,
    );
    let errs = r.expect_err("refused");
    assert_eq!(errs[0].kind, DeriveErrorKind::InvalidDescriptionJson);
    let reason = serde_json::from_str::<serde_json::Value>("[1,").expect_err("not JSON").to_string();
    assert_eq!(refusal_message(&errs[0], DeriveKind::Choice), format!("invalid desc_json: {reason}"));
}
