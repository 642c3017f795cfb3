# s1

Typed System One decisions: Rust enums and structs become Choice, Score and
Noul questions; answers come back typed and are gated by confidence.

The library in `src/` is verified with Verus. Floating-point numbers on the
wire (probabilities, confidences, scores, thresholds) are held as binary64
bit patterns (`u64`); `binary64` gives their IEEE-754 order, exact rounding
of a score to a level, and whole numbers as bit patterns.

- `policy`: `Policy` / `NoulPolicy` and the `Verdict` of a signal; the
  policy invariant (`act >= review`, thresholds in `[0, 1]`). Gating an
  answer (in `answer`) finds overrides by declaration index; it is
  monotone in the signal, and an override touches only its own variant.
- `wire`, `maps`: the request and response shapes; `IndexMap` contents as
  sequences of entries.
- `traits`: `ChoiceQuestion`, `ScoreQuestion`, `QuestionField`,
  `QuestionSet`; labels read back as their option. The answer contracts
  are stated over the spec functions of `ChoiceQuestion` and
  `ScoreQuestion`. They hold of impls verified by Verus; the impls the
  derives emit are plain Rust, keep the traits' closed constant defaults,
  and are covered by tests only, not by these proofs.
- `decode`, `answer`: decoding a response into typed answers, with every
  error case stated; what a Choice question sends comes back.
- `attr`, `rename`, `derive`: the `#[s1(...)]` attribute language, label
  renaming rules, and the plans the derives make (or their refusals), with
  distinct labels and keys in every accepted plan.
- `refusal`: the shape checks a derive makes first (generics, enum or
  struct) and the message text of every refusal.
- `fake`: the scripted backend's answers, handler selection, and the
  sorted key list of an unmatched request.
- `backend`: the typed client's model and request.

`app/` holds what surrounds the library: JSON (serde) copies of the wire
types, the async backend seam, the scripted client's floating-point
builders, error messages, and the token generation of the derives.
