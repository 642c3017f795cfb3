#![allow(dead_code)]
use indexmap::IndexMap;
use s1::{
    AnswerMeta, ChoiceAnswer, ChoiceQuestion, DecodeError, Description, Entry, Instructions, NoulAnswer,
    Question, QuestionField, QuestionSet, ScoreAnswer, ScoreQuestion, WireQuestions, WireResponse,
};

#[derive(Clone, Copy, Debug, PartialEq, Eq)]
pub enum Department {
    Billing,
    Technical,
    Sales,
}

impl ChoiceQuestion for Department {
    fn instructions() -> Instructions {
        Instructions::Text("Which team should handle this ticket?")
    }
    fn variants() -> Vec<Self> {
        vec![Department::Billing, Department::Technical, Department::Sales]
    }
    fn label(self) -> &'static str {
        match self {
            Department::Billing => "billing",
            Department::Technical => "technical",
            Department::Sales => "sales",
        }
    }
    fn description(self) -> Description {
        match self {
            Department::Billing => Description::Text("Payment, invoice, refund, or subscription issues"),
            Department::Technical => Description::Text("Bugs, errors, or integration problems"),
            Department::Sales => Description::Text("Pricing or plan questions"),
        }
    }
    fn from_label(label: &str) -> Option<Self> {
        match label {
            "billing" => Some(Department::Billing),
            "technical" => Some(Department::Technical),
            "sales" => Some(Department::Sales),
            _ => None,
        }
    }
    fn index(self) -> usize {
        match self {
            Department::Billing => 0,
            Department::Technical => 1,
            Department::Sales => 2,
        }
    }
}

impl QuestionField for Department {
    type Answer = ChoiceAnswer<Department>;
    fn wire_question() -> Question {
        Question::from_choice::<Department>()
    }
    fn decode_field(key: &str, resp: &WireResponse, meta: &mut AnswerMeta) -> Result<Self::Answer, DecodeError> {
        ChoiceAnswer::decode(key, resp, meta)
    }
}

#[derive(Clone, Copy, Debug, PartialEq, Eq)]
pub enum Frustration {
    Calm,
    Annoyed,
    Furious,
}

impl ScoreQuestion for Frustration {
    fn instructions() -> Instructions {
        Instructions::Text("How frustrated does the customer appear?")
    }
    fn levels() -> Vec<Self> {
        vec![Frustration::Calm, Frustration::Annoyed, Frustration::Furious]
    }
    fn level_description(self) -> Description {
        match self {
            Frustration::Calm => Description::Text("Calm, just stating facts"),
            Frustration::Annoyed => Description::Text("Frustrated but civil"),
            Frustration::Furious => Description::Text("Angry, strong language"),
        }
    }
    fn index(self) -> usize {
        match self {
            Frustration::Calm => 0,
            Frustration::Annoyed => 1,
            Frustration::Furious => 2,
        }
    }
    fn from_index(i: usize) -> Option<Self> {
        match i {
            0 => Some(Frustration::Calm),
            1 => Some(Frustration::Annoyed),
            2 => Some(Frustration::Furious),
            _ => None,
        }
    }
}

/// Top of the accepted score range for `n` levels: `(n - 1) + 1e-6`.
pub fn score_upper(n: usize) -> u64 {
    ((n.saturating_sub(1)) as f64 + 1e-6).to_bits()
}

impl QuestionField for Frustration {
    type Answer = ScoreAnswer<Frustration>;
    fn wire_question() -> Question {
        Question::from_score::<Frustration>()
    }
    fn decode_field(key: &str, resp: &WireResponse, meta: &mut AnswerMeta) -> Result<Self::Answer, DecodeError> {
        ScoreAnswer::decode(key, resp, meta, score_upper(Frustration::levels().len()))
    }
}

pub struct Triage;

pub struct TriageAnswers {
    pub department: ChoiceAnswer<Department>,
    pub frustration: ScoreAnswer<Frustration>,
    pub urgent: NoulAnswer,
    pub meta: AnswerMeta,
}

/// A JSON copy of a response's scalar fields, kept for audit.
pub fn raw_of(resp: &WireResponse) -> serde_json::Value {
    let mut m = serde_json::Map::new();
    m.insert("model".to_string(), serde_json::Value::String(resp.model.clone()));
    serde_json::Value::Object(m)
}

impl QuestionSet for Triage {
    type Answers = TriageAnswers;
    fn questions() -> WireQuestions {
        let mut q: WireQuestions = IndexMap::new();
        q.insert("department".to_string(), <Department as QuestionField>::wire_question());
        q.insert("frustration".to_string(), <Frustration as QuestionField>::wire_question());
        q.insert(
            "urgent".to_string(),
            Question::noul(Entry::Text("The message conveys urgency or time pressure".into()), None, None),
        );
        q
    }
    fn decode(resp: &WireResponse) -> Result<TriageAnswers, DecodeError> {
        let mut meta = AnswerMeta::from_response(resp, Some(raw_of(resp)));
        let department = <Department as QuestionField>::decode_field("department", resp, &mut meta)?;
        let frustration = <Frustration as QuestionField>::decode_field("frustration", resp, &mut meta)?;
        let urgent = NoulAnswer::decode("urgent", resp, &mut meta)?;
        Ok(TriageAnswers { department, frustration, urgent, meta })
    }
}

pub fn bits(x: f64) -> u64 {
    x.to_bits()
}

pub fn num(b: u64) -> f64 {
    f64::from_bits(b)
}

use s1::{NoulPolicy, Policy, PolicyError, Signal, Verdict};

fn choice_with_confidence(value: Department, confidence: f64) -> ChoiceAnswer<Department> {
    let rest = (1.0 - confidence).max(0.0) / 2.0;
    let p = |d: Department| if value == d { confidence } else { rest };
    ChoiceAnswer::from_distribution(
        value,
        vec![
            (Department::Billing, bits(p(Department::Billing))),
            (Department::Technical, bits(p(Department::Technical))),
            (Department::Sales, bits(p(Department::Sales))),
        ],
        bits(confidence),
    )
}

/// Top-1 minus top-2 of the answer's distribution.
fn margin(a: &ChoiceAnswer<Department>) -> u64 {
    let (t1, t2) = a.top_two();
    bits(num(t1) - num(t2))
}

fn gate(a: &ChoiceAnswer<Department>, policy: &Policy<Department>) -> Verdict<Department> {
    a.gate(policy, margin(a))
}

#[test]
fn choice_gate_act_review_escalate() {
    let policy = Policy::act(bits(0.85)).review(bits(0.6));
    assert_eq!(
        gate(&choice_with_confidence(Department::Billing, 0.91), &policy),
        Verdict::Act(Department::Billing)
    );
    assert_eq!(
        gate(&choice_with_confidence(Department::Technical, 0.70), &policy),
        Verdict::Review(Department::Technical)
    );
    assert_eq!(gate(&choice_with_confidence(Department::Sales, 0.40), &policy), Verdict::Escalate);
}

#[test]
fn gate_accepts_policy_by_value_matching_vision_snippet() {
    let a = choice_with_confidence(Department::Billing, 0.91);
    let v = gate(&a, &Policy::act(bits(0.85)).review(bits(0.6)));
    assert!(matches!(v, Verdict::Act(Department::Billing)));
}

#[test]
fn per_variant_override() {
    let policy = Policy::act(bits(0.7)).review(bits(0.4)).for_variant(Department::Sales, bits(0.95), bits(0.8));
    assert_eq!(
        gate(&choice_with_confidence(Department::Billing, 0.75), &policy),
        Verdict::Act(Department::Billing)
    );
    assert_eq!(gate(&choice_with_confidence(Department::Sales, 0.75), &policy), Verdict::Escalate);
}

#[test]
fn try_act_rejects_out_of_unit_interval() {
    assert!(matches!(Policy::<Department>::try_act(bits(1.2)), Err(PolicyError::OutOfUnitInterval(_))));
    assert!(matches!(Policy::<Department>::try_act(bits(-0.1)), Err(PolicyError::OutOfUnitInterval(_))));
}

#[test]
fn try_review_rejects_act_below_review() {
    let err = match Policy::<Department>::try_act(bits(0.4)).expect("act").try_review(bits(0.8)) {
        Err(e) => e,
        Ok(_) => panic!("review > act"),
    };
    assert!(matches!(err, PolicyError::ActBelowReview { .. }));
}

#[test]
fn noul_gate_yes_no_review_escalate() {
    let policy = NoulPolicy::new(bits(0.9), bits(0.1), bits(0.4), bits(0.6));
    assert_eq!(NoulAnswer::from_p(bits(0.95)).unwrap().gate(&policy), Verdict::Act(true));
    assert_eq!(NoulAnswer::from_p(bits(0.05)).unwrap().gate(&policy), Verdict::Act(false));
    assert_eq!(NoulAnswer::from_p(bits(0.5)).unwrap().gate(&policy), Verdict::Review(true));
    assert_eq!(NoulAnswer::from_p(bits(0.75)).unwrap().gate(&policy), Verdict::Escalate);
}

#[test]
fn noul_try_new_rejects_yes_below_no() {
    assert!(matches!(
        NoulPolicy::try_new(bits(0.2), bits(0.8), bits(0.3), bits(0.4)),
        Err(PolicyError::YesBelowNo { .. })
    ));
}

#[test]
fn verdict_is_monotone_in_confidence() {
    let policy = Policy::act(bits(0.8)).review(bits(0.5));
    let mut prev_rank = 0u8;
    let mut first = true;
    for i in 0..=20 {
        let c = i as f64 / 20.0;
        let rank = gate(&choice_with_confidence(Department::Billing, c), &policy).rank();
        if !first {
            assert!(rank >= prev_rank, "rank dropped from {prev_rank} to {rank} at confidence {c}");
        }
        first = false;
        prev_rank = rank;
    }
}

#[test]
fn top_prob_signal() {
    let policy = Policy::act(bits(0.9)).review(bits(0.5)).using(Signal::TopProb);
    let answer = choice_with_confidence(Department::Billing, 0.91);
    assert_eq!(gate(&answer, &policy), Verdict::Act(Department::Billing));
}

#[test]
fn noul_from_p_rejects_out_of_range() {
    assert!(NoulAnswer::from_p(bits(-0.01)).is_err());
    assert!(NoulAnswer::from_p(bits(1.01)).is_err());
}

#[test]
fn margin_signal_reads_top_one_minus_top_two() {
    let policy = Policy::act(bits(0.5)).review(bits(0.2)).using(Signal::Margin);
    // 0.8 - 0.1 = 0.7 ≥ 0.5
    assert_eq!(gate(&choice_with_confidence(Department::Billing, 0.8), &policy), Verdict::Act(Department::Billing));
    // 0.5 - 0.25 = 0.25: review
    assert_eq!(
        gate(&choice_with_confidence(Department::Technical, 0.5), &policy),
        Verdict::Review(Department::Technical)
    );
    // 0.4 - 0.3 = 0.1: escalate
    assert_eq!(gate(&choice_with_confidence(Department::Sales, 0.4), &policy), Verdict::Escalate);
}

#[test]
fn top_two_of_a_distribution() {
    let a = choice_with_confidence(Department::Technical, 0.6);
    let (t1, t2) = a.top_two();
    assert_eq!(num(t1), 0.6);
    assert!((num(t2) - 0.2).abs() < 1e-12);
}

#[test]
fn verdict_rank_orders_escalate_review_act() {
    assert_eq!(Verdict::<bool>::Escalate.rank(), 0);
    assert_eq!(Verdict::Review(true).rank(), 1);
    assert_eq!(Verdict::Act(false).rank(), 2);
}

#[test]
fn threshold_exactly_at_act_acts() {
    let policy = Policy::act(bits(0.7)).review(bits(0.7));
    assert_eq!(gate(&choice_with_confidence(Department::Billing, 0.7), &policy), Verdict::Act(Department::Billing));
}

#[test]
fn override_leaves_other_variants_alone() {
    let base = Policy::act(bits(0.7)).review(bits(0.4));
    let over = Policy::act(bits(0.7)).review(bits(0.4)).for_variant(Department::Sales, bits(0.95), bits(0.8));
    for d in [Department::Billing, Department::Technical] {
        for c in [0.3, 0.5, 0.75, 0.9] {
            let a = choice_with_confidence(d, c);
            assert_eq!(gate(&a, &base), gate(&a, &over));
        }
    }
}

#[test]
fn first_override_for_a_variant_wins() {
    let policy = Policy::act(bits(0.7))
        .review(bits(0.4))
        .for_variant(Department::Sales, bits(0.95), bits(0.8))
        .for_variant(Department::Sales, bits(0.5), bits(0.3));
    assert_eq!(gate(&choice_with_confidence(Department::Sales, 0.6), &policy), Verdict::Escalate);
}

#[test]
fn try_for_variant_rejects_bad_pair() {
    let p = Policy::act(bits(0.7)).review(bits(0.4));
    assert!(matches!(
        p.try_for_variant(Department::Sales, bits(0.3), bits(0.8)),
        Err(PolicyError::ActBelowReview { .. })
    ));
    let p = Policy::act(bits(0.7)).review(bits(0.4));
    assert!(matches!(
        p.try_for_variant(Department::Sales, bits(1.3), bits(0.8)),
        Err(PolicyError::OutOfUnitInterval(_))
    ));
}

#[test]
fn noul_try_new_rejects_inverted_band_and_bad_thresholds() {
    assert!(matches!(
        NoulPolicy::try_new(bits(0.9), bits(0.1), bits(0.6), bits(0.4)),
        Err(PolicyError::InvalidReviewBand { .. })
    ));
    assert!(matches!(
        NoulPolicy::try_new(bits(1.9), bits(0.1), bits(0.4), bits(0.6)),
        Err(PolicyError::OutOfUnitInterval(_))
    ));
    let ok = NoulPolicy::try_new(bits(0.9), bits(0.1), bits(0.4), bits(0.6)).expect("valid");
    assert_eq!(num(ok.yes_act()), 0.9);
    assert_eq!(num(ok.no_act()), 0.1);
    assert_eq!(ok.review_band(), (bits(0.4), bits(0.6)));
}

#[test]
fn policy_accessors_report_thresholds_and_signal() {
    let p = Policy::<Department>::act(bits(0.85)).review(bits(0.6));
    assert_eq!(num(p.act_threshold()), 0.85);
    assert_eq!(num(p.review_threshold()), 0.6);
    assert_eq!(p.signal(), Signal::Confidence);
    assert_eq!(Signal::default(), Signal::Confidence);
}

#[test]
fn score_gate_uses_nearest_level() {
    let policy = Policy::act(bits(0.8)).review(bits(0.5));
    let a = ScoreAnswer::<Frustration>::from_expected(bits(1.6), bits(0.9));
    assert_eq!(a.gate(&policy, bits(0.0)), Verdict::Act(Frustration::Furious));
    let b = ScoreAnswer::<Frustration>::from_expected(bits(0.2), bits(0.6));
    assert_eq!(b.gate(&policy, bits(0.0)), Verdict::Review(Frustration::Calm));
}

#[test]
fn cloned_policy_gates_alike() {
    let p = Policy::act(bits(0.7)).review(bits(0.4)).for_variant(Department::Sales, bits(0.95), bits(0.8));
    let q = p.clone();
    assert_eq!(p, q);
    for c in [0.3, 0.5, 0.75, 0.9] {
        let a = choice_with_confidence(Department::Sales, c);
        assert_eq!(gate(&a, &p), gate(&a, &q));
    }
}

#[test]
fn from_distribution_keeps_the_last_pair_per_variant() {
    let a = ChoiceAnswer::from_distribution(
        Department::Billing,
        vec![
            (Department::Billing, bits(0.2)),
            (Department::Sales, bits(0.3)),
            (Department::Billing, bits(0.6)),
        ],
        bits(0.6),
    );
    assert_eq!(num(a.prob(Department::Billing)), 0.6);
    assert_eq!(num(a.prob(Department::Sales)), 0.3);
    assert_eq!(num(a.prob(Department::Technical)), 0.0);
}
