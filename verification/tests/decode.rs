#![allow(dead_code)]
use indexmap::IndexMap;
use s1::{
    AnswerMeta, ChoiceAnswer, ChoiceQuestion, DecodeError, Description, Entry, Instructions, NoulAnswer,
    Question, QuestionField, QuestionSet, ScoreAnswer, ScoreQuestion, WireQuestions, WireResponse,
};

#[derive(Clone, Copy, Debug, PartialEq, Eq)]
pub enum Department {
    Billing,
    Technical,
    Sales,
}

impl ChoiceQuestion for Department {
    fn instructions() -> Instructions {
        Instructions::Text("Which team should handle this ticket?")
    }
    fn variants() -> Vec<Self> {
        vec![Department::Billing, Department::Technical, Department::Sales]
    }
    fn label(self) -> &'static str {
        match self {
            Department::Billing => "billing",
            Department::Technical => "technical",
            Department::Sales => "sales",
        }
    }
    fn description(self) -> Description {
        match self {
            Department::Billing => Description::Text("Payment, invoice, refund, or subscription issues"),
            Department::Technical => Description::Text("Bugs, errors, or integration problems"),
            Department::Sales => Description::Text("Pricing or plan questions"),
        }
    }
    fn from_label(label: &str) -> Option<Self> {
        match label {
            "billing" => Some(Department::Billing),
            "technical" => Some(Department::Technical),
            "sales" => Some(Department::Sales),
            _ => None,
        }
    }
    fn index(self) -> usize {
        match self {
            Department::Billing => 0,
            Department::Technical => 1,
            Department::Sales => 2,
        }
    }
}

impl QuestionField for Department {
    type Answer = ChoiceAnswer<Department>;
    fn wire_question() -> Question {
        Question::from_choice::<Department>()
    }
    fn decode_field(key: &str, resp: &WireResponse, meta: &mut AnswerMeta) -> Result<Self::Answer, DecodeError> {
        ChoiceAnswer::decode(key, resp, meta)
    }
}

#[derive(Clone, Copy, Debug, PartialEq, Eq)]
pub enum Frustration {
    Calm,
    Annoyed,
    Furious,
}

impl ScoreQuestion for Frustration {
    fn instructions() -> Instructions {
        Instructions::Text("How frustrated does the customer appear?")
    }
    fn levels() -> Vec<Self> {
        vec![Frustration::Calm, Frustration::Annoyed, Frustration::Furious]
    }
    fn level_description(self) -> Description {
        match self {
            Frustration::Calm => Description::Text("Calm, just stating facts"),
            Frustration::Annoyed => Description::Text("Frustrated but civil"),
            Frustration::Furious => Description::Text("Angry, strong language"),
        }
    }
    fn index(self) -> usize {
        match self {
            Frustration::Calm => 0,
            Frustration::Annoyed => 1,
            Frustration::Furious => 2,
        }
    }
    fn from_index(i: usize) -> Option<Self> {
        match i {
            0 => Some(Frustration::Calm),
            1 => Some(Frustration::Annoyed),
            2 => Some(Frustration::Furious),
            _ => None,
        }
    }
}

/// Top of the accepted score range for `n` levels: `(n - 1) + 1e-6`.
pub fn score_upper(n: usize) -> u64 {
    ((n.saturating_sub(1)) as f64 + 1e-6).to_bits()
}

impl QuestionField for Frustration {
    type Answer = ScoreAnswer<Frustration>;
    fn wire_question() -> Question {
        Question::from_score::<Frustration>()
    }
    fn decode_field(key: &str, resp: &WireResponse, meta: &mut AnswerMeta) -> Result<Self::Answer, DecodeError> {
        ScoreAnswer::decode(key, resp, meta, score_upper(Frustration::levels().len()))
    }
}

pub struct Triage;

pub struct TriageAnswers {
    pub department: ChoiceAnswer<Department>,
    pub frustration: ScoreAnswer<Frustration>,
    pub urgent: NoulAnswer,
    pub meta: AnswerMeta,
}

/// A JSON copy of a response's scalar fields, kept for audit.
pub fn raw_of(resp: &WireResponse) -> serde_json::Value {
    let mut m = serde_json::Map::new();
    m.insert("model".to_string(), serde_json::Value::String(resp.model.clone()));
    serde_json::Value::Object(m)
}

impl QuestionSet for Triage {
    type Answers = TriageAnswers;
    fn questions() -> WireQuestions {
        let mut q: WireQuestions = IndexMap::new();
        q.insert("department".to_string(), <Department as QuestionField>::wire_question());
        q.insert("frustration".to_string(), <Frustration as QuestionField>::wire_question());
        q.insert(
            "urgent".to_string(),
            Question::noul(Entry::Text("The message conveys urgency or time pressure".into()), None, None),
        );
        q
    }
    fn decode(resp: &WireResponse) -> Result<TriageAnswers, DecodeError> {
        let mut meta = AnswerMeta::from_response(resp, Some(raw_of(resp)));
        let department = <Department as QuestionField>::decode_field("department", resp, &mut meta)?;
        let frustration = <Frustration as QuestionField>::decode_field("frustration", resp, &mut meta)?;
        let urgent = NoulAnswer::decode("urgent", resp, &mut meta)?;
        Ok(TriageAnswers { department, frustration, urgent, meta })
    }
}

pub fn bits(x: f64) -> u64 {
    x.to_bits()
}

pub fn num(b: u64) -> f64 {
    f64::from_bits(b)
}

use s1::{Usage, WireAnswer};

fn valid_response() -> WireResponse {
    let mut answers = IndexMap::new();
    answers.insert(
        "department".to_string(),
        WireAnswer::Choice {
            choice: "billing".into(),
            probabilities: IndexMap::from_iter([
                ("billing".to_string(), bits(0.91)),
                ("technical".to_string(), bits(0.05)),
                ("sales".to_string(), bits(0.04)),
            ]),
            confidence: bits(0.88),
        },
    );
    answers.insert(
        "frustration".to_string(),
        WireAnswer::Score {
            score: bits(1.2),
            legend: IndexMap::from_iter([
                ("0".to_string(), serde_json::Value::String("Calm, just stating facts".into())),
                ("1".to_string(), serde_json::Value::String("Frustrated but civil".into())),
                ("2".to_string(), serde_json::Value::String("Angry, strong language".into())),
            ]),
            probabilities: Some(IndexMap::from_iter([
                ("0".to_string(), bits(0.1)),
                ("1".to_string(), bits(0.6)),
                ("2".to_string(), bits(0.3)),
            ])),
            confidence: bits(0.7),
        },
    );
    answers.insert("urgent".to_string(), WireAnswer::Noul { noul: bits(0.97) });
    WireResponse {
        model: "jev-latest".into(),
        answers,
        usage: Some(Usage { input_tokens: 10, output_tokens: 3 }),
        request_id: Some("req-1".into()),
    }
}

/// Probability mass at or above `level`, from the per-level distribution.
fn at_least(a: &ScoreAnswer<Frustration>, level: Frustration) -> Option<f64> {
    let dist = a.distribution()?;
    Some(dist.iter().filter(|(l, _)| l.index() >= level.index()).map(|(_, p)| num(*p)).sum())
}

#[test]
fn decode_happy_path_through_question_set() {
    let t = Triage::decode(&valid_response()).expect("decode");
    assert_eq!(t.department.value(), Department::Billing);
    assert!((num(t.department.prob(Department::Billing)) - 0.91).abs() < 1e-9);
    assert!((num(t.department.confidence()) - 0.88).abs() < 1e-9);
    assert_eq!(t.frustration.nearest(), Frustration::Annoyed);
    assert!((num(t.frustration.expected()) - 1.2).abs() < 1e-9);
    assert!((num(t.urgent.p()) - 0.97).abs() < 1e-9);
    assert!(t.urgent.is_likely());
    assert_eq!(t.meta.model, "jev-latest");
    assert!(t.meta.raw().is_some());
}

#[test]
fn unknown_choice_label_is_decode_error() {
    let mut resp = valid_response();
    resp.answers.insert(
        "department".into(),
        WireAnswer::Choice {
            choice: "legal".into(),
            probabilities: IndexMap::from_iter([("legal".to_string(), bits(1.0))]),
            confidence: bits(0.9),
        },
    );
    match Triage::decode(&resp) {
        Err(DecodeError::UnknownLabel { key, label }) => {
            assert_eq!(key, "department");
            assert_eq!(label, "legal");
        }
        Err(other) => panic!("expected UnknownLabel, got {other:?}"),
        Ok(_) => panic!("expected UnknownLabel, got Ok"),
    }
}

#[test]
fn missing_answer_is_decode_error() {
    let mut resp = valid_response();
    resp.answers.shift_remove("urgent");
    match Triage::decode(&resp) {
        Err(DecodeError::MissingAnswer { key }) => assert_eq!(key, "urgent"),
        Err(other) => panic!("expected MissingAnswer, got {other:?}"),
        Ok(_) => panic!("expected MissingAnswer, got Ok"),
    }
}

#[test]
fn noul_out_of_range_is_decode_error() {
    let mut resp = valid_response();
    resp.answers.insert("urgent".into(), WireAnswer::Noul { noul: bits(1.5) });
    match Triage::decode(&resp) {
        Err(DecodeError::OutOfRange { key, value, min, max }) => {
            assert_eq!(key, "urgent");
            assert!((num(value) - 1.5).abs() < 1e-12);
            assert_eq!((num(min), num(max)), (0.0, 1.0));
        }
        Err(other) => panic!("expected OutOfRange, got {other:?}"),
        Ok(_) => panic!("expected OutOfRange, got Ok"),
    }
}

#[test]
fn score_out_of_range_is_decode_error() {
    let mut resp = valid_response();
    if let Some(WireAnswer::Score { score, .. }) = resp.answers.get_mut("frustration") {
        *score = bits(9.0);
    }
    match Triage::decode(&resp) {
        Err(DecodeError::OutOfRange { key, max, .. }) => {
            assert_eq!(key, "frustration");
            assert!((num(max) - 2.0).abs() < 1e-12);
        }
        Err(other) => panic!("expected OutOfRange, got {other:?}"),
        Ok(_) => panic!("expected OutOfRange, got Ok"),
    }
}

#[test]
fn missing_probability_labels_become_zero_and_count_events() {
    let mut resp = valid_response();
    resp.answers.insert(
        "department".into(),
        WireAnswer::Choice {
            choice: "billing".into(),
            probabilities: IndexMap::from_iter([
                ("billing".to_string(), bits(0.5)),
                ("technical".to_string(), bits(0.5)),
                // sales omitted
            ]),
            confidence: bits(0.5),
        },
    );
    let t = Triage::decode(&resp).expect("decode");
    assert_eq!(num(t.department.prob(Department::Sales)), 0.0);
    assert!(t.meta.normalization_events >= 1);
}

#[derive(Clone, Copy, Debug, PartialEq, Eq)]
enum Side {
    Left,
    Right,
}

impl ChoiceQuestion for Side {
    fn instructions() -> Instructions {
        Instructions::Text("Pick a side")
    }
    fn variants() -> Vec<Self> {
        vec![Side::Left, Side::Right]
    }
    fn label(self) -> &'static str {
        match self {
            Side::Left => "left",
            Side::Right => "right",
        }
    }
    fn description(self) -> Description {
        match self {
            Side::Left => Description::Text("Left"),
            Side::Right => Description::Text("Right"),
        }
    }
    fn from_label(label: &str) -> Option<Self> {
        match label {
            "left" => Some(Side::Left),
            "right" => Some(Side::Right),
            _ => None,
        }
    }
    fn index(self) -> usize {
        match self {
            Side::Left => 0,
            Side::Right => 1,
        }
    }
}

impl QuestionField for Side {
    type Answer = ChoiceAnswer<Side>;
    fn wire_question() -> Question {
        Question::from_choice::<Side>()
    }
    fn decode_field(key: &str, resp: &WireResponse, meta: &mut AnswerMeta) -> Result<Self::Answer, DecodeError> {
        ChoiceAnswer::decode(key, resp, meta)
    }
}

#[test]
fn optional_choice_allows_missing_answer() {
    let resp = WireResponse {
        model: "jev-latest".into(),
        answers: IndexMap::new(),
        usage: None,
        request_id: None,
    };
    let mut meta = AnswerMeta::from_response(&resp, None);
    let side = <Side as QuestionField>::decode_optional("side", &resp, &mut meta).expect("optional missing is ok");
    assert!(side.is_none());
}

#[test]
fn optional_choice_decodes_a_present_answer() {
    let mut answers = IndexMap::new();
    answers.insert(
        "side".to_string(),
        WireAnswer::Choice {
            choice: "right".into(),
            probabilities: IndexMap::from_iter([("left".to_string(), bits(0.2)), ("right".to_string(), bits(0.8))]),
            confidence: bits(0.8),
        },
    );
    let resp = WireResponse { model: "m".into(), answers, usage: None, request_id: None };
    let mut meta = AnswerMeta::from_response(&resp, None);
    let side = <Side as QuestionField>::decode_optional("side", &resp, &mut meta).expect("present");
    assert_eq!(side.expect("some").value(), Side::Right);
}

#[test]
fn score_nearest_rounds_and_clamps() {
    let t = Triage::decode(&valid_response()).expect("decode");
    assert_eq!(t.frustration.nearest(), Frustration::Annoyed);
    let at_least = at_least(&t.frustration, Frustration::Annoyed).expect("dist");
    assert!((at_least - 0.9).abs() < 1e-9);
}

#[test]
fn score_nearest_clamps_to_last_level() {
    let a = ScoreAnswer::<Frustration>::from_expected(bits(7.6), bits(0.5));
    assert_eq!(a.nearest(), Frustration::Furious);
    let b = ScoreAnswer::<Frustration>::from_expected(bits(-3.0), bits(0.5));
    assert_eq!(b.nearest(), Frustration::Calm);
    let c = ScoreAnswer::<Frustration>::from_expected(bits(0.5), bits(0.5));
    assert_eq!(c.nearest(), Frustration::Annoyed);
    let d = ScoreAnswer::<Frustration>::from_expected(bits(0.49), bits(0.5));
    assert_eq!(d.nearest(), Frustration::Calm);
}

#[test]
fn wrong_answer_type_is_decode_error() {
    let mut resp = valid_response();
    resp.answers.insert("department".into(), WireAnswer::Noul { noul: bits(0.5) });
    match Triage::decode(&resp) {
        Err(DecodeError::WrongType { key, expected, actual }) => {
            assert_eq!(key, "department");
            assert_eq!(expected, "choice");
            assert_eq!(actual, "noul");
        }
        Err(other) => panic!("expected WrongType, got {other:?}"),
        Ok(_) => panic!("expected WrongType, got Ok"),
    }
}

#[test]
fn unknown_probability_label_is_not_counted() {
    let mut resp = valid_response();
    resp.answers.insert(
        "department".into(),
        WireAnswer::Choice {
            choice: "sales".into(),
            probabilities: IndexMap::from_iter([
                ("billing".to_string(), bits(0.2)),
                ("technical".to_string(), bits(0.3)),
                ("sales".to_string(), bits(0.5)),
                ("legal".to_string(), bits(0.1)),
            ]),
            confidence: bits(0.5),
        },
    );
    let t = Triage::decode(&resp).expect("decode");
    assert_eq!(t.department.value(), Department::Sales);
    assert_eq!(t.meta.normalization_events, 0);
}

#[test]
fn score_missing_level_counts_an_event_and_reads_zero() {
    let mut resp = valid_response();
    resp.answers.insert(
        "frustration".into(),
        WireAnswer::Score {
            score: bits(2.0),
            legend: IndexMap::new(),
            probabilities: Some(IndexMap::from_iter([("2".to_string(), bits(1.0))])),
            confidence: bits(0.9),
        },
    );
    let t = Triage::decode(&resp).expect("decode");
    assert_eq!(t.meta.normalization_events, 2);
    let dist = t.frustration.distribution().expect("dist");
    assert_eq!(dist.len(), 3);
    assert_eq!(num(dist[0].1), 0.0);
    assert_eq!(num(dist[2].1), 1.0);
    assert_eq!(t.frustration.nearest(), Frustration::Furious);
}

#[test]
fn score_at_upper_tolerance_is_accepted() {
    let mut resp = valid_response();
    if let Some(WireAnswer::Score { score, .. }) = resp.answers.get_mut("frustration") {
        *score = bits(2.0000005);
    }
    let t = Triage::decode(&resp).expect("within tolerance");
    assert_eq!(t.frustration.nearest(), Frustration::Furious);
}

#[test]
fn noul_slightly_outside_the_unit_interval_is_out_of_range() {
    for p in [-5e-7, 1.0000005] {
        let mut resp = valid_response();
        resp.answers.insert("urgent".into(), WireAnswer::Noul { noul: bits(p) });
        match Triage::decode(&resp) {
            Err(DecodeError::OutOfRange { key, .. }) => assert_eq!(key, "urgent"),
            Err(other) => panic!("expected OutOfRange, got {other:?}"),
            Ok(_) => panic!("expected OutOfRange, got Ok"),
        }
    }
    let mut resp = valid_response();
    resp.answers.insert("urgent".into(), WireAnswer::Noul { noul: bits(1.0) });
    assert!(Triage::decode(&resp).expect("1.0 is in range").urgent.is_likely());
}

#[test]
fn meta_copies_response_fields() {
    let t = Triage::decode(&valid_response()).expect("decode");
    assert_eq!(t.meta.usage, Some(Usage { input_tokens: 10, output_tokens: 3 }));
    assert_eq!(t.meta.request_id.as_deref(), Some("req-1"));
    assert_eq!(t.meta.normalization_events, 0);
}

#[test]
fn question_set_keys_match_fake_registration() {
    let keys: Vec<_> = Triage::questions().keys().cloned().collect();
    assert_eq!(keys, vec!["department", "frustration", "urgent"]);
    assert_eq!(Department::variants().len(), 3);
    assert_eq!(Frustration::levels().len(), 3);
}

// ---- the scripted client ----

use s1::fake::{route, select_handler, sorted_keys, FakeError, Script};
use s1::WireRequest;

fn triage_script() -> Script {
    Script::new()
        .noul("urgent".into(), bits(0.9))
        .push_choice(
            None,
            vec!["sales".into(), "billing".into(), "technical".into()],
            "billing".into(),
            IndexMap::from_iter([
                ("billing".to_string(), bits(0.8)),
                ("technical".to_string(), bits(0.15)),
                ("sales".to_string(), bits(0.05)),
            ]),
            bits(0.85),
        )
        .push_score(
            None,
            3,
            bits(1.1),
            IndexMap::new(),
            IndexMap::from_iter([
                ("0".to_string(), bits(0.1)),
                ("1".to_string(), bits(0.7)),
                ("2".to_string(), bits(0.2)),
            ]),
            bits(0.75),
        )
}

fn triage_request() -> WireRequest {
    WireRequest {
        state: serde_json::Value::String("Help! My payouts have been failing for 3 days.".into()),
        model: "jev-latest".into(),
        questions: Triage::questions(),
    }
}

#[test]
fn fake_script_answers_every_question_in_order() {
    let resp = triage_script().apply(&triage_request()).expect("scripted");
    let keys: Vec<&str> = resp.answers.keys().map(|k| k.as_str()).collect();
    assert_eq!(keys, vec!["department", "frustration", "urgent"]);
    assert_eq!(resp.model, "jev-latest");
    assert_eq!(resp.request_id.as_deref(), Some("fake"));
    assert_eq!(resp.usage, Some(Usage { input_tokens: 0, output_tokens: 0 }));
    let t = Triage::decode(&resp).expect("decode");
    assert_eq!(t.department.value(), Department::Billing);
    assert!((num(t.department.prob(Department::Technical)) - 0.15).abs() < 1e-12);
    assert_eq!(t.frustration.nearest(), Frustration::Annoyed);
    assert!((num(t.urgent.p()) - 0.9).abs() < 1e-12);
}

#[test]
fn fake_script_without_an_answer_reports_the_question() {
    let script = Script::new().push_choice(
        Some("department".into()),
        vec![],
        "sales".into(),
        IndexMap::new(),
        bits(0.5),
    );
    match script.apply(&triage_request()) {
        Err(FakeError::MissingScript(key)) => assert_eq!(key, "frustration"),
        Err(other) => panic!("expected MissingScript, got {other:?}"),
        Ok(_) => panic!("expected MissingScript, got Ok"),
    }
}

#[test]
fn fake_choice_bound_to_a_key_wins_over_label_match() {
    let script = triage_script().push_choice(
        Some("department".into()),
        vec![],
        "sales".into(),
        IndexMap::from_iter([("sales".to_string(), bits(1.0))]),
        bits(0.99),
    );
    let resp = script.apply(&triage_request()).expect("scripted");
    // The unbound Choice comes first in the script and fits by its labels.
    let t = Triage::decode(&resp).expect("decode");
    assert_eq!(t.department.value(), Department::Billing);
}

#[test]
fn fake_choice_with_other_labels_does_not_fit() {
    let script = Script::new()
        .noul("urgent".into(), bits(0.9))
        .push_choice(None, vec!["left".into(), "right".into()], "left".into(), IndexMap::new(), bits(0.5));
    match script.apply(&triage_request()) {
        Err(FakeError::MissingScript(key)) => assert_eq!(key, "department"),
        Err(other) => panic!("expected MissingScript, got {other:?}"),
        Ok(_) => panic!("expected MissingScript, got Ok"),
    }
}

#[test]
fn fake_noul_set_twice_keeps_the_last_value() {
    let script = triage_script().noul("urgent".into(), bits(0.1));
    let resp = script.apply(&triage_request()).expect("scripted");
    let t = Triage::decode(&resp).expect("decode");
    assert!((num(t.urgent.p()) - 0.1).abs() < 1e-12);
}

#[test]
fn handler_is_chosen_by_question_key_set() {
    let registered = vec![
        vec!["side".to_string()],
        vec!["urgent".to_string(), "frustration".to_string(), "department".to_string()],
        vec!["department".to_string(), "frustration".to_string(), "urgent".to_string()],
    ];
    let keys: Vec<String> = Triage::questions().keys().cloned().collect();
    assert_eq!(select_handler(&registered, &keys), Some(1));
    assert_eq!(select_handler(&registered, &vec!["other".to_string()]), None);
    assert_eq!(select_handler(&vec![], &keys), None);
}

#[test]
fn unmatched_request_lists_its_keys_sorted() {
    let registered = vec![vec!["side".to_string()]];
    let keys = vec!["urgent".to_string(), "department".to_string(), "frustration".to_string(), "department".to_string()];
    match route(&registered, &keys) {
        Err(FakeError::NoHandler(ks)) => assert_eq!(ks, vec!["department", "frustration", "urgent"]),
        other => panic!("expected NoHandler, got {other:?}"),
    }
    assert_eq!(route(&registered, &vec!["side".to_string()]), Ok(0));
    assert_eq!(sorted_keys(&vec!["b".to_string(), "B".to_string(), "ab".to_string(), "a".to_string()]), vec!["B", "a", "ab", "b"]);
}

#[test]
fn noul_from_p_error_is_keyed_noul() {
    match NoulAnswer::from_p(bits(1.01)) {
        Err(DecodeError::OutOfRange { key, value, min, max }) => {
            assert_eq!(key, "noul");
            assert_eq!(num(value), 1.01);
            assert_eq!((num(min), num(max)), (0.0, 1.0));
        }
        other => panic!("expected OutOfRange, got {:?}", other.err()),
    }
}

#[test]
fn request_carries_the_question_set() {
    use_request();
}

fn use_request() {
    let s1 = s1::backend::S1::new(()).with_model("m".to_string());
    let req = s1.request::<Triage>(serde_json::Value::Null);
    let keys: Vec<&str> = req.questions.keys().map(|k| k.as_str()).collect();
    assert_eq!(keys, vec!["department", "frustration", "urgent"]);
    assert_eq!(req.model, "m");
}

#[test]
fn optional_choice_passes_on_a_decode_error() {
    let mut answers = IndexMap::new();
    answers.insert(
        "side".to_string(),
        WireAnswer::Choice { choice: "up".into(), probabilities: IndexMap::new(), confidence: bits(0.5) },
    );
    let resp = WireResponse { model: "m".into(), answers, usage: None, request_id: None };
    let mut meta = AnswerMeta::from_response(&resp, None);
    match <Side as QuestionField>::decode_optional("side", &resp, &mut meta) {
        Err(DecodeError::UnknownLabel { key, label }) => {
            assert_eq!(key, "side");
            assert_eq!(label, "up");
        }
        Err(other) => panic!("expected UnknownLabel, got {other:?}"),
        Ok(_) => panic!("expected UnknownLabel, got Ok"),
    }
    assert_eq!(meta.normalization_events, 0);
}
