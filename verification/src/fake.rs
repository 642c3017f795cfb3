//! Scripted answers for tests and examples: which scripted answer goes to
//! which question of a request, with no network involved.
use indexmap::IndexMap;
use serde_json::Value;
use vstd::prelude::*;

use crate::answer::Usage;
use crate::maps::{
    answer_entries, answers_insert, answers_new, criteria_entries, criteria_get_index, criteria_len,
    keys_of, legend_clone, legend_entries, lookup, prob_entries, probs_clone, question_entries,
    questions_get_index, questions_len, with_entry,
};
use crate::rename::same_text;
use crate::wire::{Question, WireAnswer, WireRequest, WireResponse};

verus! {

/// Failure of the scripted client.
#[derive(Clone, Debug, PartialEq)]
#[non_exhaustive]
pub enum FakeError {
    /// No registered script matched the request's question keys.
    NoHandler(Vec<String>),
    /// The script did not provide an answer for this question id.
    MissingScript(String),
}

/// A scripted Choice answer.
#[derive(Debug)]
pub struct ScriptedChoice {
    key: Option<String>,
    labels: Vec<String>,
    chosen: String,
    probabilities: IndexMap<String, u64>,
    confidence: u64,
}

/// A scripted Score answer.
#[derive(Debug)]
pub struct ScriptedScore {
    key: Option<String>,
    n_levels: usize,
    expected: u64,
    legend: IndexMap<String, Value>,
    probabilities: IndexMap<String, u64>,
    confidence: u64,
}

/// Answers to emit for one request.
#[derive(Debug)]
pub struct Script {
    choices: Vec<ScriptedChoice>,
    scores: Vec<ScriptedScore>,
    nouls: Vec<(String, u64)>,
}

/// A scripted Choice seen through views.
pub struct ChoiceView {
    /// Question id it is bound to, if any.
    pub key: Option<Seq<char>>,
    /// Option labels of the Choice type it was scripted for.
    pub labels: Seq<Seq<char>>,
    /// Label it answers.
    pub chosen: Seq<char>,
    /// Probability entries.
    pub probs: Seq<(Seq<char>, u64)>,
    /// Confidence.
    pub confidence: u64,
}

/// A scripted Score seen through views.
pub struct ScoreView {
    /// Question id it is bound to, if any.
    pub key: Option<Seq<char>>,
    /// Level count of the Score type it was scripted for.
    pub n_levels: nat,
    /// Expected score.
    pub expected: u64,
    /// Legend entries.
    pub legend: Seq<(Seq<char>, Value)>,
    /// Probability entries.
    pub probs: Seq<(Seq<char>, u64)>,
    /// Confidence.
    pub confidence: u64,
}

/// The characters of an optional string.
pub open spec fn key_view(k: Option<String>) -> Option<Seq<char>> {
    match k {
        Some(s) => Some(s@),
        None => None,
    }
}

impl View for ScriptedChoice {
    type V = ChoiceView;

    closed spec fn view(&self) -> ChoiceView {
        ChoiceView {
            key: key_view(self.key),
            labels: label_views(self.labels@),
            chosen: self.chosen@,
            probs: prob_entries(self.probabilities),
            confidence: self.confidence,
        }
    }
}

impl View for ScriptedScore {
    type V = ScoreView;

    closed spec fn view(&self) -> ScoreView {
        ScoreView {
            key: key_view(self.key),
            n_levels: self.n_levels as nat,
            expected: self.expected,
            legend: legend_entries(self.legend),
            probs: prob_entries(self.probabilities),
            confidence: self.confidence,
        }
    }
}

/// What a [`Script`] holds.
pub struct ScriptView {
    /// Scripted Choice answers, in the order added.
    pub choices: Seq<ChoiceView>,
    /// Scripted Score answers, in the order added.
    pub scores: Seq<ScoreView>,
    /// Noul probabilities by question id (each id once).
    pub nouls: Seq<(Seq<char>, u64)>,
}

impl View for Script {
    type V = ScriptView;

    closed spec fn view(&self) -> ScriptView {
        ScriptView {
            choices: self.choices@.map_values(|c: ScriptedChoice| c@),
            scores: self.scores@.map_values(|s: ScriptedScore| s@),
            nouls: self.nouls@.map_values(|p: (String, u64)| (p.0@, p.1)),
        }
    }
}

/// The characters of each string.
pub open spec fn label_views(v: Seq<String>) -> Seq<Seq<char>> {
    v.map_values(|s: String| s@)
}

/// Two label lists name the same set of labels.
pub open spec fn same_labels(a: Seq<Seq<char>>, b: Seq<Seq<char>>) -> bool {
    a.to_set() == b.to_set()
}

/// A scripted Choice may answer question `key` with option labels `crit`:
/// it is bound to that key, or unbound and scripted for the same labels.
pub open spec fn choice_fits(c: ChoiceView, key: Seq<char>, crit: Seq<Seq<char>>) -> bool {
    c.key == Some(key) || (c.key is None && same_labels(c.labels, crit))
}

/// A scripted Score may answer question `key` with `n` levels.
pub open spec fn score_fits(s: ScoreView, key: Seq<char>, n: nat) -> bool {
    s.key == Some(key) || (s.key is None && s.n_levels == n)
}

/// First scripted Choice from `i` on that is unused and fits question `key`
/// with option labels `crit`.
pub open spec fn first_choice(
    cs: Seq<ChoiceView>,
    used: Seq<bool>,
    key: Seq<char>,
    crit: Seq<Seq<char>>,
    i: int,
) -> Option<int>
    decreases used.len() - i,
{
    if i >= used.len() || i < 0 {
        None
    } else if !used[i] && choice_fits(cs[i], key, crit) {
        Some(i)
    } else {
        first_choice(cs, used, key, crit, i + 1)
    }
}

/// First scripted Score from `i` on that is unused and fits question `key`
/// with `n` levels.
pub open spec fn first_score(ss: Seq<ScoreView>, used: Seq<bool>, key: Seq<char>, n: nat, i: int) -> Option<int>
    decreases used.len() - i,
{
    if i >= used.len() || i < 0 {
        None
    } else if !used[i] && score_fits(ss[i], key, n) {
        Some(i)
    } else {
        first_score(ss, used, key, n, i + 1)
    }
}

/// Which scripted answer a question gets.
pub enum Pick {
    /// A Noul probability.
    Noul(u64),
    /// The scripted Choice at this index.
    Choice(int),
    /// The scripted Score at this index.
    Score(int),
}

/// The picks for the questions `qs`, in order, each scripted Choice or Score
/// used at most once; or the id of the first question without a script.
pub open spec fn picks(s: ScriptView, qs: Seq<(Seq<char>, Question)>) -> Result<
    (Seq<bool>, Seq<bool>, Seq<Pick>),
    Seq<char>,
>
    decreases qs.len(),
{
    if qs.len() == 0 {
        Ok((
            Seq::new(s.choices.len(), |i: int| false),
            Seq::new(s.scores.len(), |i: int| false),
            Seq::empty(),
        ))
    } else {
        match picks(s, qs.drop_last()) {
            Err(k) => Err(k),
            Ok((uc, us, ps)) => {
                let key = qs.last().0;
                match qs.last().1 {
                    Question::Noul { .. } => match lookup(s.nouls, key) {
                        Some(p) => Ok((uc, us, ps.push(Pick::Noul(p)))),
                        None => Err(key),
                    },
                    Question::Choice { criteria, .. } => {
                        let crit = keys_of(criteria_entries(criteria));
                        match first_choice(s.choices, uc, key, crit, 0) {
                            Some(i) => Ok((uc.update(i, true), us, ps.push(Pick::Choice(i)))),
                            None => Err(key),
                        }
                    },
                    Question::Score { criteria, .. } => {
                        match first_score(s.scores, us, key, criteria.len() as nat, 0) {
                            Some(i) => Ok((uc, us.update(i, true), ps.push(Pick::Score(i)))),
                            None => Err(key),
                        }
                    },
                }
            },
        }
    }
}

proof fn lemma_picks_prefix_err(s: ScriptView, qs: Seq<(Seq<char>, Question)>, m: int)
    requires
        0 <= m <= qs.len(),
        picks(s, qs.take(m)) is Err,
    ensures
        picks(s, qs) == picks(s, qs.take(m)),
    decreases qs.len(),
{
    if qs.len() == m {
        assert(qs.take(m) =~= qs);
    } else {
        assert(qs.drop_last().take(m) =~= qs.take(m));
        lemma_picks_prefix_err(s, qs.drop_last(), m);
    }
}

/// Pick `pick` answers question `q` from script `s`: a Noul question by the
/// probability scripted for its id; a Choice question by a scripted Choice
/// bound to its id, or unbound and scripted for exactly its option labels
/// (the same labels, in any order); a Score question by a scripted Score
/// bound to its id, or unbound with its number of levels.
pub open spec fn pick_answers(s: ScriptView, q: (Seq<char>, Question), pick: Pick) -> bool {
    match (q.1, pick) {
        (Question::Noul { .. }, Pick::Noul(p)) => lookup(s.nouls, q.0) == Some(p),
        (Question::Choice { criteria, .. }, Pick::Choice(i)) => {
            &&& 0 <= i < s.choices.len()
            &&& s.choices[i].key == Some(q.0) || (s.choices[i].key is None && forall|x: Seq<char>|
                s.choices[i].labels.contains(x) <==> keys_of(criteria_entries(criteria)).contains(x))
        },
        (Question::Score { criteria, .. }, Pick::Score(i)) => {
            &&& 0 <= i < s.scores.len()
            &&& s.scores[i].key == Some(q.0) || (s.scores[i].key is None && s.scores[i].n_levels
                == criteria.len())
        },
        _ => false,
    }
}

proof fn lemma_first_choice(cs: Seq<ChoiceView>, used: Seq<bool>, key: Seq<char>, crit: Seq<Seq<char>>, i: int)
    requires
        used.len() == cs.len(),
    ensures
        first_choice(cs, used, key, crit, i) matches Some(k) ==> {
            &&& 0 <= k < cs.len()
            &&& !used[k]
            &&& cs[k].key == Some(key) || (cs[k].key is None && forall|x: Seq<char>|
                cs[k].labels.contains(x) <==> crit.contains(x))
        },
    decreases used.len() - i,
{
    if 0 <= i < used.len() {
        if !used[i] && choice_fits(cs[i], key, crit) {
            if cs[i].key != Some(key) {
                assert forall|x: Seq<char>| cs[i].labels.contains(x) <==> crit.contains(x) by {
                    assert(cs[i].labels.to_set().contains(x) == crit.to_set().contains(x));
                }
            }
        } else {
            lemma_first_choice(cs, used, key, crit, i + 1);
        }
    }
}

proof fn lemma_first_score(ss: Seq<ScoreView>, used: Seq<bool>, key: Seq<char>, n: nat, i: int)
    requires
        used.len() == ss.len(),
    ensures
        first_score(ss, used, key, n, i) matches Some(k) ==> {
            &&& 0 <= k < ss.len()
            &&& !used[k]
            &&& ss[k].key == Some(key) || (ss[k].key is None && ss[k].n_levels == n)
        },
    decreases used.len() - i,
{
    if 0 <= i < used.len() && !(!used[i] && score_fits(ss[i], key, n)) {
        lemma_first_score(ss, used, key, n, i + 1);
    }
}

/// Every pick the scripted client makes answers its question as the
/// scripts say ([`pick_answers`]): in particular an unbound scripted Choice
/// only answers a question with exactly its option labels; and no scripted
/// Choice or Score answers two questions.
pub proof fn lemma_picks_answer(s: ScriptView, qs: Seq<(Seq<char>, Question)>)
    ensures
        picks(s, qs) matches Ok((uc, us, ps)) ==> {
            &&& uc.len() == s.choices.len()
            &&& us.len() == s.scores.len()
            &&& ps.len() == qs.len()
            &&& forall|q: int| 0 <= q < qs.len() ==> pick_answers(s, qs[q], #[trigger] ps[q])
            &&& forall|q: int| 0 <= q < qs.len() ==> (#[trigger] ps[q] matches Pick::Choice(i) ==> uc[i])
            &&& forall|q: int| 0 <= q < qs.len() ==> (#[trigger] ps[q] matches Pick::Score(i) ==> us[i])
            &&& forall|a: int, b: int|
                0 <= a < b < qs.len() ==> (#[trigger] ps[a] matches Pick::Choice(i) ==> !(#[trigger] ps[b] matches Pick::Choice(j) && i == j))
            &&& forall|a: int, b: int|
                0 <= a < b < qs.len() ==> (#[trigger] ps[a] matches Pick::Score(i) ==> !(#[trigger] ps[b] matches Pick::Score(j) && i == j))
        },
    decreases qs.len(),
{
    if qs.len() > 0 {
        let prev = qs.drop_last();
        lemma_picks_answer(s, prev);
        let n = qs.len() - 1;
        assert forall|q: int| 0 <= q < n implies #[trigger] qs[q] == prev[q] by {}
        match picks(s, prev) {
            Err(_) => {},
            Ok((uc, us, ps)) => {
                let key = qs.last().0;
                match qs.last().1 {
                    Question::Noul { .. } => {},
                    Question::Choice { criteria, .. } => {
                        let crit = keys_of(criteria_entries(criteria));
                        lemma_first_choice(s.choices, uc, key, crit, 0);
                    },
                    Question::Score { criteria, .. } => {
                        lemma_first_score(s.scores, us, key, criteria.len() as nat, 0);
                    },
                }
            },
        }
    }
}

/// `a` is the wire answer for pick `p` of script `s`.
pub open spec fn answers_pick(s: ScriptView, p: Pick, a: WireAnswer) -> bool {
    match p {
        Pick::Noul(x) => a == WireAnswer::Noul { noul: x },
        Pick::Choice(i) => match a {
            WireAnswer::Choice { choice, probabilities, confidence } => {
                &&& choice@ == s.choices[i].chosen
                &&& prob_entries(probabilities) == s.choices[i].probs
                &&& confidence == s.choices[i].confidence
            },
            _ => false,
        },
        Pick::Score(i) => match a {
            WireAnswer::Score { score, legend, probabilities, confidence } => {
                &&& score == s.scores[i].expected
                &&& legend_entries(legend) == s.scores[i].legend
                &&& probabilities matches Some(p) && prob_entries(p) == s.scores[i].probs
                &&& confidence == s.scores[i].confidence
            },
            _ => false,
        },
    }
}

fn copy_key(k: &Option<String>) -> (r: Option<String>)
    ensures
        r == *k,
{
    match k {
        Some(s) => Some(s.clone()),
        None => None,
    }
}

fn contains_label(labels: &Vec<String>, l: &str) -> (r: bool)
    ensures
        r == label_views(labels@).contains(l@),
{
    let n = labels.len();
    let mut i: usize = 0;
    while i < n
        invariant
            n == labels@.len(),
            0 <= i <= n,
            forall|j: int| 0 <= j < i ==> labels@[j]@ != l@,
        decreases n - i,
    {
        if same_text(labels[i].as_str(), l) {
            proof {
                assert(label_views(labels@)[i as int] == l@);
            }
            return true;
        }
        i = i + 1;
    }
    proof {
        let views = label_views(labels@);
        if views.contains(l@) {
            let j = choose|j: int| 0 <= j < views.len() && #[trigger] views[j] == l@;
            assert(labels@[j]@ == l@);
        }
    }
    false
}

/// Every label of `a` is in `b`.
fn all_in(a: &Vec<String>, b: &Vec<String>) -> (r: bool)
    ensures
        r == (forall|x: Seq<char>|
            #[trigger] label_views(a@).contains(x) ==> label_views(b@).contains(
                x,
            )),
{
    let n = a.len();
    let ghost av = label_views(a@);
    let ghost bv = label_views(b@);
    let mut i: usize = 0;
    while i < n
        invariant
            n == a@.len(),
            av == label_views(a@),
            bv == label_views(b@),
            0 <= i <= n,
            forall|j: int| 0 <= j < i ==> bv.contains(#[trigger] av[j]),
        decreases n - i,
    {
        if !contains_label(b, a[i].as_str()) {
            proof {
                assert(av.contains(av[i as int]));
            }
            return false;
        }
        i = i + 1;
    }
    proof {
        assert forall|x: Seq<char>| #[trigger] av.contains(x) implies bv.contains(x) by {
            let j = choose|j: int| 0 <= j < av.len() && #[trigger] av[j] == x;
        }
    }
    true
}

/// Whether two label lists name the same set.
pub fn same_label_set(a: &Vec<String>, b: &Vec<String>) -> (r: bool)
    ensures
        r == same_labels(label_views(a@), label_views(b@)),
{
    let r = all_in(a, b) && all_in(b, a);
    proof {
        let av = label_views(a@);
        let bv = label_views(b@);
        if r {
            assert(av.to_set() =~= bv.to_set());
        } else {
            if av.to_set() == bv.to_set() {
                assert forall|x: Seq<char>| #[trigger] av.contains(x) implies bv.contains(x) by {
                    assert(av.to_set().contains(x));
                }
                assert forall|x: Seq<char>| #[trigger] bv.contains(x) implies av.contains(x) by {
                    assert(bv.to_set().contains(x));
                }
            }
        }
    }
    r
}

/// The first registration whose question keys are, as a set, the keys of
/// a request: the handler a scripted client runs for it. `None` when no
/// registration matches.
pub fn select_handler(registered: &Vec<Vec<String>>, keys: &Vec<String>) -> (r: Option<usize>)
    ensures
        match r {
            Some(i) => {
                &&& i < registered@.len()
                &&& same_labels(label_views(registered@[i as int]@), label_views(keys@))
                &&& forall|j: int|
                    0 <= j < i ==> !same_labels(
                        label_views(#[trigger] registered@[j]@),
                        label_views(keys@),
                    )
            },
            None => forall|j: int|
                0 <= j < registered@.len() ==> !same_labels(
                    label_views(#[trigger] registered@[j]@),
                    label_views(keys@),
                ),
        },
{
    let n = registered.len();
    let mut i: usize = 0;
    while i < n
        invariant
            n == registered@.len(),
            0 <= i <= n,
            forall|j: int|
                0 <= j < i ==> !same_labels(label_views(#[trigger] registered@[j]@), label_views(keys@)),
        decreases n - i,
    {
        if same_label_set(&registered[i], keys) {
            return Some(i);
        }
        i = i + 1;
    }
    None
}

/// `a` sorts before `b` as `String`s do: lexicographically by character
/// (UTF-8 preserves the order of scalar values, so this is also the order
/// of the bytes).
pub open spec fn text_lt(a: Seq<char>, b: Seq<char>) -> bool
    decreases a.len(),
{
    if a.len() == 0 {
        b.len() > 0
    } else if b.len() == 0 {
        false
    } else if a[0] != b[0] {
        (a[0] as u32) < (b[0] as u32)
    } else {
        text_lt(a.drop_first(), b.drop_first())
    }
}

/// The order of texts is transitive.
pub proof fn lemma_text_lt_transitive(a: Seq<char>, b: Seq<char>, c: Seq<char>)
    requires
        text_lt(a, b),
        text_lt(b, c),
    ensures
        text_lt(a, c),
    decreases a.len(),
{
    if a.len() > 0 && b.len() > 0 && c.len() > 0 && a[0] == b[0] && b[0] == c[0] {
        lemma_text_lt_transitive(a.drop_first(), b.drop_first(), c.drop_first());
    }
}

/// Of two different texts, one sorts before the other, and never both.
pub proof fn lemma_text_lt_total(a: Seq<char>, b: Seq<char>)
    ensures
        a != b ==> text_lt(a, b) || text_lt(b, a),
        !(text_lt(a, b) && text_lt(b, a)),
        !text_lt(a, a),
    decreases a.len(),
{
    if a.len() == 0 && b.len() == 0 {
        assert(a =~= b);
    } else if a.len() > 0 && b.len() > 0 && a[0] == b[0] {
        lemma_text_lt_total(a.drop_first(), b.drop_first());
        if a.drop_first() == b.drop_first() {
            assert(a.len() == b.len());
            assert forall|t: int| 0 <= t < a.len() implies a[t] == b[t] by {
                if t > 0 {
                    assert(a[t] == a.drop_first()[t - 1]);
                    assert(b[t] == b.drop_first()[t - 1]);
                }
            }
            assert(a =~= b);
        }
    } else if a.len() > 0 && b.len() > 0 {
        vstd::utf8::char_u32_cast(a[0], a[0] as u32);
        vstd::utf8::char_u32_cast(b[0], b[0] as u32);
    }
    if a.len() > 0 {
        lemma_text_lt_total(a.drop_first(), a.drop_first());
    }
}

proof fn lemma_push_contains(s: Seq<Seq<char>>, y: Seq<char>, x: Seq<char>)
    ensures
        s.push(y).contains(x) <==> s.contains(x) || x == y,
{
    if s.push(y).contains(x) {
        let t = choose|t: int| 0 <= t < s.push(y).len() && s.push(y)[t] == x;
        if t < s.len() {
            assert(s[t] == x);
        }
    }
    if s.contains(x) {
        let t = choose|t: int| 0 <= t < s.len() && s[t] == x;
        assert(s.push(y)[t] == x);
    }
    if x == y {
        assert(s.push(y)[s.len() as int] == x);
    }
}

/// Whether `a` sorts before `b`.
fn less_text(a: &str, b: &str) -> (r: bool)
    ensures
        r == text_lt(a@, b@),
{
    let x = crate::rename::chars_of(a);
    let y = crate::rename::chars_of(b);
    let mut i: usize = 0;
    proof {
        assert(a@.skip(0) =~= a@);
        assert(b@.skip(0) =~= b@);
    }
    while i < x.len() && i < y.len()
        invariant
            x@ == a@,
            y@ == b@,
            0 <= i <= x@.len(),
            i <= y@.len(),
            text_lt(a@, b@) == text_lt(a@.skip(i as int), b@.skip(i as int)),
        decreases x@.len() - i,
    {
        let c = x[i];
        let d = y[i];
        proof {
            assert(a@.skip(i as int)[0] == c);
            assert(b@.skip(i as int)[0] == d);
            assert(a@.skip(i as int).drop_first() =~= a@.skip(i + 1));
            assert(b@.skip(i as int).drop_first() =~= b@.skip(i + 1));
        }
        if c != d {
            return (c as u32) < (d as u32);
        }
        i = i + 1;
    }
    i < y.len()
}

/// The distinct texts of `keys`, in ascending order.
pub fn sorted_keys(keys: &Vec<String>) -> (r: Vec<String>)
    ensures
        forall|a: int, b: int| 0 <= a < b < r@.len() ==> text_lt(#[trigger] r@[a]@, #[trigger] r@[b]@),
        forall|x: Seq<char>| label_views(r@).contains(x) <==> label_views(keys@).contains(x),
{
    let mut out: Vec<String> = Vec::new();
    let n = keys.len();
    let mut i: usize = 0;
    while i < n
        invariant
            n == keys@.len(),
            0 <= i <= n,
            forall|a: int, b: int| 0 <= a < b < out@.len() ==> text_lt(#[trigger] out@[a]@, #[trigger] out@[b]@),
            forall|x: Seq<char>|
                label_views(out@).contains(x) <==> label_views(keys@.take(i as int)).contains(x),
        decreases n - i,
    {
        let k = &keys[i];
        let m = out.len();
        let mut j: usize = 0;
        while j < m && less_text(out[j].as_str(), k.as_str())
            invariant
                m == out@.len(),
                0 <= j <= m,
                forall|a: int| 0 <= a < j ==> text_lt(#[trigger] out@[a]@, k@),
            decreases m - j,
        {
            j = j + 1;
        }
        let ghost before = out@;
        proof {
            assert(keys@.take(i + 1) =~= keys@.take(i as int).push(keys@[i as int]));
            assert(label_views(keys@.take(i + 1)) =~= label_views(keys@.take(i as int)).push(k@));
        }
        if j < m && same_text(out[j].as_str(), k.as_str()) {
            proof {
                assert forall|x: Seq<char>| label_views(out@).contains(x) <==> label_views(
                    keys@.take(i + 1),
                ).contains(x) by {
                    lemma_push_contains(label_views(keys@.take(i as int)), k@, x);
                    if x == k@ {
                        assert(label_views(out@)[j as int] == x);
                    }
                }
            }
        } else {
            proof {
                if j < m {
                    lemma_text_lt_total(out@[j as int]@, k@);
                }
            }
            out.insert(j, k.clone());
            proof {
                assert(out@ == before.insert(j as int, *k));
                assert forall|a: int, b: int| 0 <= a < b < out@.len() implies text_lt(
                    #[trigger] out@[a]@,
                    #[trigger] out@[b]@,
                ) by {
                    if b < j {
                        assert(out@[a] == before[a] && out@[b] == before[b]);
                    } else if b == j {
                        assert(out@[a] == before[a]);
                    } else if a == j {
                        assert(out@[b] == before[b - 1]);
                        if b - 1 > j {
                            lemma_text_lt_transitive(k@, before[j as int]@, before[b - 1]@);
                        }
                    } else if a < j {
                        assert(out@[a] == before[a] && out@[b] == before[b - 1]);
                    } else {
                        assert(out@[a] == before[a - 1] && out@[b] == before[b - 1]);
                    }
                }
                assert forall|x: Seq<char>| label_views(out@).contains(x) <==> label_views(
                    keys@.take(i + 1),
                ).contains(x) by {
                    lemma_push_contains(label_views(keys@.take(i as int)), k@, x);
                    if label_views(out@).contains(x) {
                        let t = choose|t: int| 0 <= t < label_views(out@).len() && label_views(out@)[t] == x;
                        if t < j {
                            assert(label_views(before)[t] == x);
                        } else if t > j {
                            assert(label_views(before)[t - 1] == x);
                        }
                    }
                    if label_views(before).contains(x) {
                        let t = choose|t: int| 0 <= t < label_views(before).len() && label_views(before)[t] == x;
                        if t < j {
                            assert(label_views(out@)[t] == x);
                        } else {
                            assert(label_views(out@)[t + 1] == x);
                        }
                    }
                    if x == k@ {
                        assert(label_views(out@)[j as int] == x);
                    }
                }
            }
        }
        i = i + 1;
    }
    proof {
        assert(keys@.take(n as int) =~= keys@);
    }
    out
}

/// The handler for a request with question keys `keys`: the first
/// registration with the same key set, or [`FakeError::NoHandler`] with the
/// request's distinct keys in ascending order.
pub fn route(registered: &Vec<Vec<String>>, keys: &Vec<String>) -> (r: Result<usize, FakeError>)
    ensures
        match r {
            Ok(i) => {
                &&& i < registered@.len()
                &&& same_labels(label_views(registered@[i as int]@), label_views(keys@))
                &&& forall|j: int|
                    0 <= j < i ==> !same_labels(label_views(#[trigger] registered@[j]@), label_views(keys@))
            },
            Err(e) => {
                &&& forall|j: int|
                    0 <= j < registered@.len() ==> !same_labels(
                        label_views(#[trigger] registered@[j]@),
                        label_views(keys@),
                    )
                &&& e matches FakeError::NoHandler(ks) && {
                    &&& forall|a: int, b: int|
                        0 <= a < b < ks@.len() ==> text_lt(#[trigger] ks@[a]@, #[trigger] ks@[b]@)
                    &&& forall|x: Seq<char>| label_views(ks@).contains(x) <==> label_views(keys@).contains(x)
                }
            },
        },
{
    match select_handler(registered, keys) {
        Some(i) => Ok(i),
        None => Err(FakeError::NoHandler(sorted_keys(keys))),
    }
}

/// Option labels of a Choice question's criteria, in order.
fn criteria_labels(criteria: &IndexMap<String, crate::wire::Entry>) -> (v: Vec<String>)
    ensures
        label_views(v@) == keys_of(criteria_entries(*criteria)),
{
    let n = criteria_len(criteria);
    let mut v: Vec<String> = Vec::new();
    let mut i: usize = 0;
    while i < n
        invariant
            n == criteria_entries(*criteria).len(),
            0 <= i <= n,
            label_views(v@) == keys_of(criteria_entries(*criteria)).take(i as int),
        decreases n - i,
    {
        let ghost prev = label_views(v@);
        let ghost e = criteria_entries(*criteria);
        match criteria_get_index(criteria, i) {
            Some((k, _)) => {
                v.push(k.clone());
                proof {
                    assert(label_views(v@) =~= prev.push(k@));
                    assert(k@ == keys_of(e)[i as int]);
                }
            },
            None => {},
        }
        proof {
            assert(keys_of(e).take(i + 1) =~= keys_of(e).take(i as int).push(keys_of(e)[i as int]));
        }
        i = i + 1;
    }
    proof {
        assert(keys_of(criteria_entries(*criteria)).take(n as int) =~= keys_of(
            criteria_entries(*criteria),
        ));
    }
    v
}

impl Script {
    #[verifier::type_invariant]
    closed spec fn inv(self) -> bool {
        crate::maps::keys_distinct(self@.nouls)
    }

    /// Empty script.
    pub fn new() -> (s: Self)
        ensures
            s@.choices.len() == 0,
            s@.scores.len() == 0,
            s@.nouls.len() == 0,
    {
        let s = Script { choices: Vec::new(), scores: Vec::new(), nouls: Vec::new() };
        proof {
            assert(s@.choices =~= Seq::<ChoiceView>::empty());
            assert(s@.scores =~= Seq::<ScoreView>::empty());
            assert(s@.nouls =~= Seq::<(Seq<char>, u64)>::empty());
        }
        s
    }

    /// Emit a Noul probability for `key` (a later call for the same key
    /// replaces the earlier one).
    pub fn noul(self, key: String, p: u64) -> (s: Self)
        ensures
            s@.choices == self@.choices,
            s@.scores == self@.scores,
            s@.nouls == with_entry(self@.nouls, key@, p),
    {
        proof {
            use_type_invariant(&self);
        }
        let ghost before = self@.nouls;
        let ghost all = self@;
        let ghost k = key@;
        let Script { choices, scores, nouls } = self;
        assert(choices@.map_values(|c: ScriptedChoice| c@) == all.choices);
        assert(scores@.map_values(|c: ScriptedScore| c@) == all.scores);
        let mut nouls = nouls;
        let n = nouls.len();
        let mut i: usize = 0;
        while i < n
            invariant
                n == nouls@.len(),
                0 <= i <= n,
                nouls@.map_values(|p: (String, u64)| (p.0@, p.1)) == before,
                k == key@,
                forall|j: int| 0 <= j < i ==> before[j].0 != k,
                crate::maps::keys_distinct(before),
                choices@.map_values(|c: ScriptedChoice| c@) == all.choices,
                scores@.map_values(|c: ScriptedScore| c@) == all.scores,
                all == self@,
                before == all.nouls,
            decreases n - i,
        {
            if same_text(nouls[i].0.as_str(), key.as_str()) {
                proof {
                    assert(before[i as int].0 == k);
                    assert(crate::maps::has_key(before, k));
                    let pos = crate::maps::key_position(before, k);
                    assert(before[pos].0 == k);
                    assert(pos == i);
                }
                nouls.set(i, (key, p));
                proof {
                    assert(nouls@.map_values(|p: (String, u64)| (p.0@, p.1)) =~= with_entry(before, k, p));
                    assert(crate::maps::keys_distinct(with_entry(before, k, p)));
                }
                let s = Script { choices, scores, nouls };
                return s;
            }
            i = i + 1;
        }
        nouls.push((key, p));
        proof {
            assert(!crate::maps::has_key(before, k));
            assert(nouls@.map_values(|p: (String, u64)| (p.0@, p.1)) =~= with_entry(before, k, p));
            assert(crate::maps::keys_distinct(with_entry(before, k, p)));
        }
        let s = Script { choices, scores, nouls };
        s
    }

    /// Add a scripted Choice answer: bound to `key` when given, else to any
    /// question whose option labels are `labels`.
    pub fn push_choice(
        self,
        key: Option<String>,
        labels: Vec<String>,
        chosen: String,
        probabilities: IndexMap<String, u64>,
        confidence: u64,
    ) -> (s: Self)
        ensures
            s@.choices == self@.choices.push(
                ChoiceView {
                    key: key_view(key),
                    labels: label_views(labels@),
                    chosen: chosen@,
                    probs: prob_entries(probabilities),
                    confidence,
                },
            ),
            s@.scores == self@.scores,
            s@.nouls == self@.nouls,
    {
        proof {
            use_type_invariant(&self);
        }
        let ghost before = self@;
        let Script { choices, scores, nouls } = self;
        let mut choices = choices;
        choices.push(ScriptedChoice { key, labels, chosen, probabilities, confidence });
        let s = Script { choices, scores, nouls };
        proof {
            assert(s@.choices =~= before.choices.push(s.choices@[s.choices@.len() - 1]@));
        }
        s
    }

    /// Add a scripted Score answer: bound to `key` when given, else to any
    /// question with `n_levels` levels.
    pub fn push_score(
        self,
        key: Option<String>,
        n_levels: usize,
        expected: u64,
        legend: IndexMap<String, Value>,
        probabilities: IndexMap<String, u64>,
        confidence: u64,
    ) -> (s: Self)
        ensures
            s@.scores == self@.scores.push(
                ScoreView {
                    key: key_view(key),
                    n_levels: n_levels as nat,
                    expected,
                    legend: legend_entries(legend),
                    probs: prob_entries(probabilities),
                    confidence,
                },
            ),
            s@.choices == self@.choices,
            s@.nouls == self@.nouls,
    {
        proof {
            use_type_invariant(&self);
        }
        let ghost before = self@;
        let Script { choices, scores, nouls } = self;
        let mut scores = scores;
        scores.push(ScriptedScore { key, n_levels, expected, legend, probabilities, confidence });
        let s = Script { choices, scores, nouls };
        proof {
            assert(s@.scores =~= before.scores.push(s.scores@[s.scores@.len() - 1]@));
        }
        s
    }

    fn noul_for(&self, key: &str) -> (r: Option<u64>)
        ensures
            r == lookup(self@.nouls, key@),
    {
        proof {
            use_type_invariant(self);
        }
        let n = self.nouls.len();
        let ghost nv = self@.nouls;
        let mut i: usize = 0;
        while i < n
            invariant
                n == self.nouls@.len(),
                nv == self@.nouls,
                0 <= i <= n,
                forall|j: int| 0 <= j < i ==> nv[j].0 != key@,
                crate::maps::keys_distinct(nv),
            decreases n - i,
        {
            if same_text(self.nouls[i].0.as_str(), key) {
                proof {
                    assert(nv[i as int].0 == key@);
                    let pos = crate::maps::key_position(nv, key@);
                    assert(nv[pos].0 == key@);
                    assert(pos == i);
                }
                return Some(self.nouls[i].1);
            }
            i = i + 1;
        }
        None
    }

    /// Answer every question of `req` from the script: a Noul question by
    /// its id; a Choice question by the first unused scripted Choice bound
    /// to its id or scripted for its labels; a Score question by the first
    /// unused scripted Score bound to its id or with its level count.
    pub fn apply(&self, req: &WireRequest) -> (r: Result<WireResponse, FakeError>)
        ensures
            match picks(self@, question_entries(req.questions)) {
                Err(k) => r matches Err(FakeError::MissingScript(key)) && key@ == k,
                Ok((_, _, ps)) => r matches Ok(resp) && {
                    &&& resp.model@ == req.model@
                    &&& resp.usage == Some(Usage { input_tokens: 0, output_tokens: 0 })
                    &&& resp.request_id matches Some(id) && id@ == "fake"@
                    &&& answer_entries(resp.answers).len() == ps.len()
                    &&& forall|j: int|
                        0 <= j < ps.len() ==> {
                            &&& (#[trigger] answer_entries(resp.answers)[j]).0
                                == question_entries(req.questions)[j].0
                            &&& answers_pick(self@, ps[j], answer_entries(resp.answers)[j].1)
                        }
                },
            },
    {
        let ghost qs = question_entries(req.questions);
        let mut answers = answers_new();
        let mut used_choice: Vec<bool> = Vec::new();
        let mut k: usize = 0;
        while k < self.choices.len()
            invariant
                0 <= k <= self.choices@.len(),
                used_choice@ =~= Seq::new(k as nat, |i: int| false),
            decreases self.choices@.len() - k,
        {
            used_choice.push(false);
            k = k + 1;
        }
        let mut used_score: Vec<bool> = Vec::new();
        let mut k: usize = 0;
        while k < self.scores.len()
            invariant
                0 <= k <= self.scores@.len(),
                used_score@ =~= Seq::new(k as nat, |i: int| false),
            decreases self.scores@.len() - k,
        {
            used_score.push(false);
            k = k + 1;
        }
        let ghost mut ps: Seq<Pick> = Seq::empty();
        let n = questions_len(&req.questions);
        let mut q: usize = 0;
        while q < n
            invariant
                n == qs.len(),
                qs == question_entries(req.questions),
                0 <= q <= n,
                picks(self@, qs.take(q as int)) == Ok::<(Seq<bool>, Seq<bool>, Seq<Pick>), Seq<char>>(
                    (used_choice@, used_score@, ps),
                ),
                used_choice@.len() == self@.choices.len(),
                used_score@.len() == self@.scores.len(),
                ps.len() == q,
                forall|a: int, b: int|
                    0 <= a < q && 0 <= b < n && a != b ==> #[trigger] qs[a].0 != #[trigger] qs[b].0,
                answer_entries(answers).len() == q,
                forall|j: int|
                    0 <= j < q ==> {
                        &&& (#[trigger] answer_entries(answers)[j]).0 == qs[j].0
                        &&& answers_pick(self@, ps[j], answer_entries(answers)[j].1)
                    },
            decreases n - q,
        {
            proof {
                assert(qs.take(q + 1).drop_last() =~= qs.take(q as int));
                assert(qs.take(q + 1).last() == qs[q as int]);
            }
            let (key, question) = match questions_get_index(&req.questions, q) {
                Some(p) => p,
                None => {
                    proof {
                        assert(false);
                    }
                    return Err(FakeError::MissingScript(String::new()));
                },
            };
            let answer = match question {
                Question::Noul { .. } => {
                    match self.noul_for(key.as_str()) {
                        Some(p) => {
                            proof {
                                ps = ps.push(Pick::Noul(p));
                            }
                            WireAnswer::Noul { noul: p }
                        },
                        None => {
                            proof {
                                lemma_picks_prefix_err(self@, qs, q + 1);
                            }
                            return Err(FakeError::MissingScript(key.clone()));
                        },
                    }
                },
                Question::Choice { criteria, .. } => {
                    let crit = criteria_labels(criteria);
                    let ghost critv = keys_of(criteria_entries(*criteria));
                    let m = self.choices.len();
                    let mut i: usize = 0;
                    let mut found: Option<usize> = None;
                    while i < m && found.is_none()
                        invariant
                            m == self@.choices.len(),
                            m == used_choice@.len(),
                            0 <= i <= m,
                            label_views(crit@) == critv,
                            found is None ==> first_choice(self@.choices, used_choice@, key@, critv, 0)
                                == first_choice(self@.choices, used_choice@, key@, critv, i as int),
                            found matches Some(x) ==> first_choice(self@.choices, used_choice@, key@, critv, 0)
                                == Some(x as int) && x < m,
                        decreases m - i,
                    {
                        let c = &self.choices[i];
                        let bound = match &c.key {
                            Some(ck) => same_text(ck.as_str(), key.as_str()),
                            None => false,
                        };
                        let fit = bound || (c.key.is_none() && same_label_set(&c.labels, &crit));
                        proof {
                            assert(fit == choice_fits(self@.choices[i as int], key@, critv));
                        }
                        if !used_choice[i] && fit {
                            found = Some(i);
                        }
                        i = i + 1;
                    }
                    proof {
                        if found is None {
                            assert(i == m);
                            assert(first_choice(self@.choices, used_choice@, key@, critv, m as int) is None);
                        }
                    }
                    match found {
                        Some(x) => {
                            used_choice.set(x, true);
                            proof {
                                ps = ps.push(Pick::Choice(x as int));
                            }
                            let c = &self.choices[x];
                            WireAnswer::Choice {
                                choice: c.chosen.clone(),
                                probabilities: probs_clone(&c.probabilities),
                                confidence: c.confidence,
                            }
                        },
                        None => {
                            proof {
                                assert(qs.take(q + 1).drop_last() =~= qs.take(q as int));
                                assert(qs.take(q + 1).last() == qs[q as int]);
                                assert(qs[q as int].0 == key@);
                                assert(qs[q as int].1 == *question);
                                assert(picks(self@, qs.take(q + 1)) == Err::<(Seq<bool>, Seq<bool>, Seq<Pick>), Seq<char>>(key@));
                                lemma_picks_prefix_err(self@, qs, q + 1);
                            }
                            return Err(FakeError::MissingScript(key.clone()));
                        },
                    }
                },
                Question::Score { criteria, .. } => {
                    let levels = criteria.len();
                    let m = self.scores.len();
                    let mut i: usize = 0;
                    let mut found: Option<usize> = None;
                    while i < m && found.is_none()
                        invariant
                            m == self@.scores.len(),
                            m == used_score@.len(),
                            0 <= i <= m,
                            levels == criteria.len(),
                            found is None ==> first_score(self@.scores, used_score@, key@, levels as nat, 0)
                                == first_score(self@.scores, used_score@, key@, levels as nat, i as int),
                            found matches Some(x) ==> first_score(self@.scores, used_score@, key@, levels as nat, 0)
                                == Some(x as int) && x < m,
                        decreases m - i,
                    {
                        let s = &self.scores[i];
                        let bound = match &s.key {
                            Some(sk) => same_text(sk.as_str(), key.as_str()),
                            None => false,
                        };
                        let fit = bound || (s.key.is_none() && s.n_levels == levels);
                        proof {
                            assert(fit == score_fits(self@.scores[i as int], key@, levels as nat));
                        }
                        if !used_score[i] && fit {
                            found = Some(i);
                        }
                        i = i + 1;
                    }
                    proof {
                        if found is None {
                            assert(i == m);
                            assert(first_score(self@.scores, used_score@, key@, levels as nat, m as int) is None);
                        }
                    }
                    match found {
                        Some(x) => {
                            used_score.set(x, true);
                            proof {
                                ps = ps.push(Pick::Score(x as int));
                            }
                            let s = &self.scores[x];
                            WireAnswer::Score {
                                score: s.expected,
                                legend: legend_clone(&s.legend),
                                probabilities: Some(probs_clone(&s.probabilities)),
                                confidence: s.confidence,
                            }
                        },
                        None => {
                            proof {
                                assert(qs.take(q + 1).drop_last() =~= qs.take(q as int));
                                assert(qs.take(q + 1).last() == qs[q as int]);
                                assert(qs[q as int].0 == key@);
                                assert(qs[q as int].1 == *question);
                                assert(picks(self@, qs.take(q + 1)) == Err::<(Seq<bool>, Seq<bool>, Seq<Pick>), Seq<char>>(key@));
                                lemma_picks_prefix_err(self@, qs, q + 1);
                            }
                            return Err(FakeError::MissingScript(key.clone()));
                        },
                    }
                },
            };
            let ghost before = answer_entries(answers);
            let _ = answers_insert(&mut answers, key.clone(), answer);
            proof {
                if crate::maps::has_key(before, qs[q as int].0) {
                    let p = choose|p: int| 0 <= p < before.len() && #[trigger] before[p].0 == qs[q as int].0;
                    assert(qs[p].0 == qs[q as int].0);
                }
                let after = answer_entries(answers);
                assert forall|j: int| 0 <= j < q + 1 implies {
                    &&& (#[trigger] after[j]).0 == qs[j].0
                    &&& answers_pick(self@, ps[j], after[j].1)
                } by {
                    if j < q {
                        assert(after[j] == before[j]);
                    }
                }
                assert forall|a: int, b: int| 0 <= a < q + 1 && 0 <= b < n && a != b implies #[trigger] qs[a].0
                    != #[trigger] qs[b].0 by {
                    if a == q {
                        assert(qs[b].0 != key@);
                    }
                }
            }
            q = q + 1;
        }
        proof {
            assert(qs.take(n as int) =~= qs);
        }
        Ok(
            WireResponse {
                model: req.model.clone(),
                answers,
                usage: Some(Usage { input_tokens: 0, output_tokens: 0 }),
                request_id: Some("fake".to_owned()),
            },
        )
    }
}

} // verus!
