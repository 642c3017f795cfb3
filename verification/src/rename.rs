//! Case conversion of variant names into Choice labels (`rename_all`).
use vstd::prelude::*;
use vstd::string::StrSliceExecFns;
use vstd::string::StringExecFns;

use crate::text::push_char;

verus! {

/// What `char::is_uppercase` says of `c` (Unicode `Uppercase` property).
pub uninterp spec fn upper_case(c: char) -> bool;

/// What `char::is_lowercase` says of `c` (Unicode `Lowercase` property).
pub uninterp spec fn lower_case(c: char) -> bool;

/// What `char::to_lowercase` gives for `c`, collected.
pub uninterp spec fn char_lower(c: char) -> Seq<char>;

/// What `str::to_lowercase` gives for the text `s`.
pub uninterp spec fn text_lower(s: Seq<char>) -> Seq<char>;

/// What `str::to_uppercase` gives for the text `s`.
pub uninterp spec fn text_upper(s: Seq<char>) -> Seq<char>;

/// An ASCII uppercase letter, `'A'..='Z'`.
pub open spec fn ascii_upper(c: char) -> bool {
    65 <= (c as u32) && (c as u32) <= 90
}

/// ASCII lowercasing of one character: `'A'..='Z'` become `'a'..='z'`,
/// anything else is kept.
pub open spec fn ascii_lower(c: char) -> char {
    if ascii_upper(c) {
        ((c as u32) + 32) as char
    } else {
        c
    }
}

proof fn lemma_ascii_lower(c: char)
    requires
        (c as u32) < 128,
    ensures
        (ascii_lower(c) as u32) < 128,
        !ascii_upper(ascii_lower(c)),
        c != '_' ==> ascii_lower(c) != '_',
{
    if ascii_upper(c) {
        let x = ((c as u32) + 32) as u32;
        assert(((x as char) as u32) == x);
    }
}

/// Every character of `s` is ASCII.
pub open spec fn ascii_text(s: Seq<char>) -> bool {
    forall|i: int| 0 <= i < s.len() ==> (#[trigger] s[i] as u32) < 128
}

/// `t` with every `_` taken out.
pub open spec fn without_underscores(t: Seq<char>) -> Seq<char> {
    t.filter(|c: char| c != '_')
}

/// `s` lowercased character by character, ASCII-wise.
pub open spec fn ascii_lowered(s: Seq<char>) -> Seq<char> {
    s.map_values(|c: char| ascii_lower(c))
}

/// `char::is_uppercase`; of an ASCII character it is true exactly for
/// `'A'..='Z'`.
#[verifier::external_body]
fn is_upper(c: char) -> (r: bool)
    ensures
        r == upper_case(c),
        (c as u32) < 128 ==> (r <==> ascii_upper(c)),
{
    c.is_uppercase()
}

/// An ASCII lowercase letter, `'a'..='z'`.
pub open spec fn ascii_lower_letter(c: char) -> bool {
    97 <= (c as u32) && (c as u32) <= 122
}

/// `char::is_lowercase`; of an ASCII character it is true exactly for
/// `'a'..='z'`.
#[verifier::external_body]
fn is_lower(c: char) -> (r: bool)
    ensures
        r == lower_case(c),
        (c as u32) < 128 ==> (r <==> ascii_lower_letter(c)),
{
    c.is_lowercase()
}

/// `char::to_lowercase`, collected into a string; of an ASCII character it
/// is that character's ASCII lowercase.
#[verifier::external_body]
fn lower_char(c: char) -> (r: String)
    ensures
        r@ == char_lower(c),
        (c as u32) < 128 ==> r@ == seq![ascii_lower(c)],
{
    c.to_lowercase().collect()
}

/// `str::to_lowercase`.
#[verifier::external_body]
fn lower_text(s: &str) -> (r: String)
    ensures
        r@ == text_lower(s@),
{
    s.to_lowercase()
}

/// `str::to_uppercase`.
#[verifier::external_body]
fn upper_text(s: &str) -> (r: String)
    ensures
        r@ == text_upper(s@),
{
    s.to_uppercase()
}

/// What the character at `i` of `cs` becomes in snake case: an uppercase
/// character is lowered, preceded by `_` when it is not first and touches a
/// lowercase neighbour; anything else is kept.
pub open spec fn snake_piece(cs: Seq<char>, i: int) -> Seq<char> {
    let c = cs[i];
    if upper_case(c) {
        let prev_lower = i > 0 && lower_case(cs[i - 1]);
        let next_lower = i + 1 < cs.len() && lower_case(cs[i + 1]);
        if i > 0 && (prev_lower || next_lower) {
            seq!['_'] + char_lower(c)
        } else {
            char_lower(c)
        }
    } else {
        seq![c]
    }
}

/// Snake case of the first `n` characters of `cs` (with the rest of `cs`
/// as context).
pub open spec fn snake_upto(cs: Seq<char>, n: int) -> Seq<char>
    decreases n,
{
    if n <= 0 {
        Seq::empty()
    } else {
        snake_upto(cs, n - 1) + snake_piece(cs, n - 1)
    }
}

/// [`snake_piece`] of an ASCII identifier, spelled out: an uppercase
/// letter is lowered, preceded by `_` when it is not first and a
/// neighbour is a lowercase letter.
pub open spec fn ascii_snake_piece(cs: Seq<char>, i: int) -> Seq<char> {
    let c = cs[i];
    if ascii_upper(c) {
        let prev_lower = i > 0 && ascii_lower_letter(cs[i - 1]);
        let next_lower = i + 1 < cs.len() && ascii_lower_letter(cs[i + 1]);
        if i > 0 && (prev_lower || next_lower) {
            seq!['_', ascii_lower(c)]
        } else {
            seq![ascii_lower(c)]
        }
    } else {
        seq![c]
    }
}

/// [`snake_upto`] of an ASCII identifier, spelled out.
pub open spec fn ascii_snake_upto(cs: Seq<char>, n: int) -> Seq<char>
    decreases n,
{
    if n <= 0 {
        Seq::empty()
    } else {
        ascii_snake_upto(cs, n - 1) + ascii_snake_piece(cs, n - 1)
    }
}

/// `snake_case` of an ASCII identifier.
pub open spec fn ascii_snake(cs: Seq<char>) -> Seq<char> {
    ascii_snake_upto(cs, cs.len() as int)
}

/// `snake_case` of an identifier.
pub open spec fn snake_of(cs: Seq<char>) -> Seq<char> {
    snake_upto(cs, cs.len() as int)
}

/// `camelCase` of an identifier: the first character lowered.
pub open spec fn camel_of(cs: Seq<char>) -> Seq<char> {
    if cs.len() == 0 {
        Seq::empty()
    } else {
        char_lower(cs[0]) + cs.skip(1)
    }
}

/// Every `_` of `cs` replaced by `-`.
pub open spec fn kebab_of(cs: Seq<char>) -> Seq<char> {
    cs.map_values(
        |c: char|
            if c == '_' {
                '-'
            } else {
                c
            },
    )
}

/// The label a `rename_all` rule gives an identifier, or `None` for an
/// unsupported rule.
pub open spec fn renamed(ident: Seq<char>, rule: Seq<char>) -> Option<Seq<char>> {
    if rule == "snake_case"@ {
        Some(snake_of(ident))
    } else if rule == "lowercase"@ {
        Some(text_lower(ident))
    } else if rule == "UPPERCASE"@ {
        Some(text_upper(ident))
    } else if rule == "PascalCase"@ {
        Some(ident)
    } else if rule == "camelCase"@ {
        Some(camel_of(ident))
    } else if rule == "SCREAMING_SNAKE_CASE"@ {
        Some(text_upper(snake_of(ident)))
    } else if rule == "kebab-case"@ {
        Some(kebab_of(snake_of(ident)))
    } else if rule == "none"@ || rule == "identity"@ {
        Some(ident)
    } else {
        None
    }
}

/// Characters of `s`.
pub(crate) fn chars_of(s: &str) -> (v: Vec<char>)
    ensures
        v@ == s@,
{
    let n = s.unicode_len();
    let mut v: Vec<char> = Vec::new();
    let mut i: usize = 0;
    while i < n
        invariant
            n == s@.len(),
            0 <= i <= n,
            v@ == s@.take(i as int),
        decreases n - i,
    {
        v.push(s.get_char(i));
        proof {
            assert(v@ =~= s@.take(i + 1));
        }
        i = i + 1;
    }
    proof {
        assert(s@.take(n as int) =~= s@);
    }
    v
}

/// Whether two texts have the same characters.
pub fn same_text(a: &str, b: &str) -> (r: bool)
    ensures
        r == (a@ == b@),
{
    let n = a.unicode_len();
    if n != b.unicode_len() {
        return false;
    }
    let mut i: usize = 0;
    while i < n
        invariant
            n == a@.len(),
            n == b@.len(),
            0 <= i <= n,
            forall|j: int| 0 <= j < i ==> a@[j] == b@[j],
        decreases n - i,
    {
        if a.get_char(i) != b.get_char(i) {
            return false;
        }
        i = i + 1;
    }
    proof {
        assert(a@ =~= b@);
    }
    true
}

/// `snake_case` of an identifier. Of an ASCII identifier without `_`, the
/// result with its `_` taken out is the identifier lowercased, it holds no
/// uppercase letter, and it does not start with `_`.
pub fn to_snake_case(s: &str) -> (out: String)
    ensures
        out@ == snake_of(s@),
        ascii_text(s@) ==> out@ == ascii_snake(s@),
        ascii_text(s@) && !s@.contains('_') ==> {
            &&& without_underscores(out@) == ascii_lowered(s@)
            &&& forall|k: int| 0 <= k < out@.len() ==> !ascii_upper(#[trigger] out@[k])
            &&& s@.len() > 0 ==> out@[0] != '_'
        },
{
    let chars = chars_of(s);
    let n = chars.len();
    let mut out = String::new();
    let mut i: usize = 0;
    while i < n
        invariant
            chars@ == s@,
            n == chars@.len(),
            0 <= i <= n,
            out@ == snake_upto(s@, i as int),
            ascii_text(s@) ==> snake_upto(s@, i as int) == ascii_snake_upto(s@, i as int),
            ascii_text(s@) && !s@.contains('_') ==> {
                &&& without_underscores(out@) == ascii_lowered(s@.take(i as int))
                &&& forall|k: int| 0 <= k < out@.len() ==> !ascii_upper(#[trigger] out@[k])
                &&& i > 0 ==> out@.len() > 0 && out@[0] != '_'
            },
        decreases n - i,
    {
        let c = chars[i];
        let ghost before = out@;
        let ghost plain = ascii_text(s@) && !s@.contains('_');
        proof {
            if plain {
                assert((s@[i as int] as u32) < 128);
                assert(s@[i as int] != '_') by {
                    if s@[i as int] == '_' {
                        assert(s@.contains('_'));
                    }
                }
                lemma_ascii_lower(c);
                assert(s@.take(i + 1) =~= s@.take(i as int).push(c));
                assert(ascii_lowered(s@.take(i + 1)) =~= ascii_lowered(s@.take(i as int)).push(
                    ascii_lower(c),
                ));
            }
        }
        if is_upper(c) {
            let prev_lower = i > 0 && is_lower(chars[i - 1]);
            let next_lower = i + 1 < n && is_lower(chars[i + 1]);
            if i > 0 && (prev_lower || next_lower) {
                push_char(&mut out, '_');
            }
            let ghost mid = out@;
            let low = lower_char(c);
            out.append(low.as_str());
            proof {
                reveal(Seq::filter);
                if plain {
                    assert(out@ =~= mid.push(ascii_lower(c)));
                    assert(out@.drop_last() =~= mid);
                    if mid.len() > before.len() {
                        assert(mid =~= before.push('_'));
                        assert(mid.drop_last() =~= before);
                    } else {
                        assert(mid =~= before);
                    }
                    assert(without_underscores(out@) == without_underscores(mid).push(ascii_lower(c)));
                    assert forall|k: int| 0 <= k < out@.len() implies !ascii_upper(#[trigger] out@[k]) by {
                        if k < before.len() {
                            assert(out@[k] == before[k]);
                        }
                    }
                    if i == 0 {
                        assert(out@[0] == ascii_lower(c));
                    } else {
                        assert(out@[0] == before[0]);
                    }
                }
            }
        } else {
            push_char(&mut out, c);
            proof {
                reveal(Seq::filter);
                if plain {
                    assert(out@.drop_last() =~= before);
                    assert(without_underscores(out@) == without_underscores(before).push(c));
                    assert forall|k: int| 0 <= k < out@.len() implies !ascii_upper(#[trigger] out@[k]) by {
                        if k < before.len() {
                            assert(out@[k] == before[k]);
                        }
                    }
                    if i > 0 {
                        assert(out@[0] == before[0]);
                    }
                }
            }
        }
        proof {
            assert(out@ =~= snake_upto(s@, i + 1));
            if ascii_text(s@) {
                assert((s@[i as int] as u32) < 128);
                if i > 0 {
                    assert((s@[i - 1] as u32) < 128);
                }
                if i + 1 < n {
                    assert((s@[i + 1] as u32) < 128);
                }
                assert(snake_piece(s@, i as int) =~= ascii_snake_piece(s@, i as int));
            }
        }
        i = i + 1;
    }
    proof {
        assert(s@.take(n as int) =~= s@);
    }
    out
}

/// `camelCase` of an identifier.
pub fn to_camel_case(s: &str) -> (out: String)
    ensures
        out@ == camel_of(s@),
{
    let chars = chars_of(s);
    let n = chars.len();
    if n == 0 {
        return String::new();
    }
    let mut out = lower_char(chars[0]);
    let ghost head = out@;
    let mut i: usize = 1;
    while i < n
        invariant
            chars@ == s@,
            n == chars@.len(),
            1 <= i <= n,
            head == char_lower(s@[0]),
            out@ == head + s@.subrange(1, i as int),
        decreases n - i,
    {
        push_char(&mut out, chars[i]);
        proof {
            assert(out@ =~= head + s@.subrange(1, i + 1));
        }
        i = i + 1;
    }
    proof {
        assert(s@.subrange(1, n as int) =~= s@.skip(1));
    }
    out
}

fn to_kebab(s: &str) -> (out: String)
    ensures
        out@ == kebab_of(s@),
{
    let chars = chars_of(s);
    let n = chars.len();
    let mut out = String::new();
    let mut i: usize = 0;
    while i < n
        invariant
            chars@ == s@,
            n == chars@.len(),
            0 <= i <= n,
            out@ == kebab_of(s@.take(i as int)),
        decreases n - i,
    {
        let c = chars[i];
        if c == '_' {
            push_char(&mut out, '-');
        } else {
            push_char(&mut out, c);
        }
        proof {
            assert(out@ =~= kebab_of(s@.take(i + 1)));
        }
        i = i + 1;
    }
    proof {
        assert(s@.take(n as int) =~= s@);
    }
    out
}

/// Apply a `rename_all` rule to a variant identifier; `None` names an
/// unsupported rule.
pub fn apply(ident: &str, rule: &str) -> (r: Option<String>)
    ensures
        match renamed(ident@, rule@) {
            Some(l) => r matches Some(x) && x@ == l,
            None => r is None,
        },
        rule@ == "snake_case"@ && ascii_text(ident@) ==> (r matches Some(x) && x@ == ascii_snake(ident@)),
{
    if same_text(rule, "snake_case") {
        Some(to_snake_case(ident))
    } else if same_text(rule, "lowercase") {
        Some(lower_text(ident))
    } else if same_text(rule, "UPPERCASE") {
        Some(upper_text(ident))
    } else if same_text(rule, "PascalCase") {
        Some(ident.to_owned())
    } else if same_text(rule, "camelCase") {
        Some(to_camel_case(ident))
    } else if same_text(rule, "SCREAMING_SNAKE_CASE") {
        let snake = to_snake_case(ident);
        Some(upper_text(snake.as_str()))
    } else if same_text(rule, "kebab-case") {
        let snake = to_snake_case(ident);
        Some(to_kebab(snake.as_str()))
    } else if same_text(rule, "none") || same_text(rule, "identity") {
        Some(ident.to_owned())
    } else {
        None
    }
}

} // verus!
