use vstd::prelude::*;

verus! {

use crate::error::Error;
use vstd::string::StringExecFns;
use vstd::string::StrSliceExecFns;

// ---------------------------------------------------------------------------
// Character classes
// ---------------------------------------------------------------------------

/// Whitespace for tokenization: the Unicode white-space characters
/// (horizontal tab through carriage return, space, next line, no-break
/// space, ogham space mark, the en-quad..hair-space block, the two line and
/// paragraph separators, narrow no-break space, medium mathematical space,
/// ideographic space).
pub open spec fn is_space_char(c: char) -> bool {
    ('\u{9}' <= c && c <= '\u{d}') || c == ' ' || c == '\u{85}' || c == '\u{a0}' || c == '\u{1680}'
        || ('\u{2000}' <= c && c <= '\u{200a}') || c == '\u{2028}' || c == '\u{2029}'
        || c == '\u{202f}' || c == '\u{205f}' || c == '\u{3000}'
}

/// Punctuation stripped from the ends of each token: `. , ! ¡ ? ¿ " '`
/// (the inverted marks are written as escapes).
pub open spec fn is_trim_char(c: char) -> bool {
    c == '.' || c == ',' || c == '!' || c == '\u{a1}' || c == '?' || c == '\u{bf}' || c == '"'
        || c == '\''
}

/// Decimal digit.
pub open spec fn is_digit_char(c: char) -> bool {
    '0' <= c && c <= '9'
}

fn is_space(c: char) -> (r: bool)
    ensures
        r == is_space_char(c),
{
    ('\u{9}' <= c && c <= '\u{d}') || c == ' ' || c == '\u{85}' || c == '\u{a0}' || c == '\u{1680}'
        || ('\u{2000}' <= c && c <= '\u{200a}') || c == '\u{2028}' || c == '\u{2029}'
        || c == '\u{202f}' || c == '\u{205f}' || c == '\u{3000}'
}

fn is_trim(c: char) -> (r: bool)
    ensures
        r == is_trim_char(c),
{
    c == '.' || c == ',' || c == '!' || c == '\u{a1}' || c == '?' || c == '\u{bf}' || c == '"'
        || c == '\''
}

fn is_digit(c: char) -> (r: bool)
    ensures
        r == is_digit_char(c),
{
    '0' <= c && c <= '9'
}

// ---------------------------------------------------------------------------
// Tokenization model
// ---------------------------------------------------------------------------

/// The raw tokens of `s` from position `i` on, with `cur` the (possibly
/// empty) token accumulated so far: maximal runs of non-whitespace characters.
pub open spec fn tokens_acc(s: Seq<char>, i: int, cur: Seq<char>) -> Seq<Seq<char>>
    decreases s.len() - i,
{
    if i < 0 || i >= s.len() {
        if cur.len() > 0 {
            seq![cur]
        } else {
            Seq::empty()
        }
    } else if is_space_char(s[i]) {
        if cur.len() > 0 {
            seq![cur] + tokens_acc(s, i + 1, Seq::empty())
        } else {
            tokens_acc(s, i + 1, Seq::empty())
        }
    } else {
        tokens_acc(s, i + 1, cur.push(s[i]))
    }
}

/// The maximal whitespace-free runs of `s`, in order.
pub open spec fn raw_tokens(s: Seq<char>) -> Seq<Seq<char>> {
    tokens_acc(s, 0, Seq::empty())
}

/// `t` with all leading trim punctuation removed.
pub open spec fn trim_front(t: Seq<char>) -> Seq<char>
    decreases t.len(),
{
    if t.len() > 0 && is_trim_char(t[0]) {
        trim_front(t.drop_first())
    } else {
        t
    }
}

/// `t` with all trailing trim punctuation removed.
pub open spec fn trim_back(t: Seq<char>) -> Seq<char>
    decreases t.len(),
{
    if t.len() > 0 && is_trim_char(t.last()) {
        trim_back(t.drop_last())
    } else {
        t
    }
}

/// A raw token with punctuation stripped from both ends.
pub open spec fn clean_token(t: Seq<char>) -> Seq<char> {
    trim_back(trim_front(t))
}

/// Cleans every token of a list and drops the ones that became empty.
pub open spec fn clean_token_list(ts: Seq<Seq<char>>) -> Seq<Seq<char>> {
    ts.map_values(|t: Seq<char>| clean_token(t)).filter(|t: Seq<char>| t.len() > 0)
}

/// The word tokens of a sentence text: split on whitespace, strip punctuation
/// from both ends of each piece, and drop pieces that became empty.
pub open spec fn clean_tokens(s: Seq<char>) -> Seq<Seq<char>> {
    clean_token_list(raw_tokens(s))
}

// ---------------------------------------------------------------------------
// Lemmas about the model
// ---------------------------------------------------------------------------

proof fn lemma_trim_front_subrange(s: Seq<char>, a: int, a2: int, b: int)
    requires
        0 <= a <= a2 <= b <= s.len(),
        forall|k: int| a <= k < a2 ==> is_trim_char(s[k]),
        a2 == b || !is_trim_char(s[a2]),
    ensures
        trim_front(s.subrange(a, b)) == s.subrange(a2, b),
    decreases a2 - a,
{
    let t = s.subrange(a, b);
    if a == a2 {
        if a2 == b {
            assert(t.len() == 0);
        } else {
            assert(t[0] == s[a2]);
        }
    } else {
        assert(t.len() > 0 && is_trim_char(t[0]));
        assert(t.drop_first() =~= s.subrange(a + 1, b));
        lemma_trim_front_subrange(s, a + 1, a2, b);
    }
}

proof fn lemma_trim_back_subrange(s: Seq<char>, a: int, b2: int, b: int)
    requires
        0 <= a <= b2 <= b <= s.len(),
        forall|k: int| b2 <= k < b ==> is_trim_char(s[k]),
        b2 == a || !is_trim_char(s[b2 - 1]),
    ensures
        trim_back(s.subrange(a, b)) == s.subrange(a, b2),
    decreases b - b2,
{
    let t = s.subrange(a, b);
    if b == b2 {
        if b2 == a {
            assert(t.len() == 0);
        } else {
            assert(t.last() == s[b - 1]);
        }
    } else {
        assert(t.len() > 0 && is_trim_char(t.last()));
        assert(t.drop_last() =~= s.subrange(a, b - 1));
        lemma_trim_back_subrange(s, a, b2, b - 1);
    }
}

/// Accumulating a whole whitespace-free run `[a, b)` into the current token.
proof fn lemma_tokens_acc_run(s: Seq<char>, a: int, b: int, cur: Seq<char>)
    requires
        0 <= a < b <= s.len(),
        forall|k: int| a <= k < b ==> !is_space_char(s[k]),
    ensures
        tokens_acc(s, a, cur) == tokens_acc(s, b, cur + s.subrange(a, b)),
    decreases b - a,
{
    assert(tokens_acc(s, a, cur) == tokens_acc(s, a + 1, cur.push(s[a])));
    if a + 1 == b {
        assert(cur.push(s[a]) =~= cur + s.subrange(a, b));
    } else {
        lemma_tokens_acc_run(s, a + 1, b, cur.push(s[a]));
        assert(cur.push(s[a]) + s.subrange(a + 1, b) =~= cur + s.subrange(a, b));
    }
}

/// At a run boundary (whitespace or end of text), a nonempty accumulated
/// token is emitted ahead of the remaining tokens.
proof fn lemma_tokens_acc_boundary(s: Seq<char>, i: int, cur: Seq<char>)
    requires
        0 <= i <= s.len(),
        i == s.len() || is_space_char(s[i]),
        cur.len() > 0,
    ensures
        tokens_acc(s, i, cur) == seq![cur] + tokens_acc(s, i, Seq::empty()),
{
    if i == s.len() {
        assert(seq![cur] + Seq::<Seq<char>>::empty() =~= seq![cur]);
    }
}

/// Cleaning a token list distributes over concatenation.
proof fn lemma_clean_token_list_add(x: Seq<Seq<char>>, y: Seq<Seq<char>>)
    ensures
        clean_token_list(x + y) == clean_token_list(x) + clean_token_list(y),
{
    let f = |t: Seq<char>| clean_token(t);
    let p = |t: Seq<char>| t.len() > 0;
    assert((x + y).map_values(f) =~= x.map_values(f) + y.map_values(f));
    Seq::filter_distributes_over_add(x.map_values(f), y.map_values(f), p);
}

/// Cleaning a singleton token list keeps the token exactly when its cleaned
/// form is nonempty.
proof fn lemma_clean_token_list_singleton(t: Seq<char>)
    ensures
        clean_token(t).len() > 0 ==> clean_token_list(seq![t]) == seq![clean_token(t)],
        clean_token(t).len() == 0 ==> clean_token_list(seq![t]) == Seq::<Seq<char>>::empty(),
{
    let f = |t: Seq<char>| clean_token(t);
    let p = |t: Seq<char>| t.len() > 0;
    let m = seq![t].map_values(f);
    reveal_with_fuel(Seq::<_>::filter, 2);
    assert(m =~= seq![clean_token(t)]);
    assert(m.drop_last() =~= Seq::<Seq<char>>::empty());
    if clean_token(t).len() > 0 {
        assert(m.filter(p) =~= seq![clean_token(t)]);
    } else {
        assert(m.filter(p) =~= Seq::<Seq<char>>::empty());
    }
}

// ---------------------------------------------------------------------------
// Executable tokenizer
// ---------------------------------------------------------------------------

/// Splits a sentence text into its word tokens: whitespace-separated runs
/// with the trim punctuation stripped from both ends, empty results dropped.
pub fn tokenize(s: &str) -> (tokens: Vec<String>)
    ensures
        tokens@.map_values(|t: String| t@) == clean_tokens(s@),
{
    let n = s.unicode_len();
    let mut tokens: Vec<String> = Vec::new();
    let mut i: usize = 0;
    proof {
        assert(tokens@.map_values(|t: String| t@) =~= Seq::<Seq<char>>::empty());
        assert(Seq::<Seq<char>>::empty() + clean_token_list(tokens_acc(s@, 0, Seq::empty()))
            =~= clean_token_list(tokens_acc(s@, 0, Seq::empty())));
    }
    while i < n
        invariant
            n == s@.len(),
            0 <= i <= n,
            clean_tokens(s@) == tokens@.map_values(|t: String| t@) + clean_token_list(
                tokens_acc(s@, i as int, Seq::empty()),
            ),
        decreases n - i,
    {
        if is_space(s.get_char(i)) {
            i = i + 1;
        } else {
            let a = i;
            i = i + 1;
            while i < n && !is_space(s.get_char(i))
                invariant
                    n == s@.len(),
                    0 <= a < i <= n,
                    forall|k: int| a <= k < i ==> !is_space_char(s@[k]),
                decreases n - i,
            {
                i = i + 1;
            }
            // the raw token is s[a..i]
            let mut lo = a;
            while lo < i && is_trim(s.get_char(lo))
                invariant
                    n == s@.len(),
                    a <= lo <= i <= n,
                    forall|k: int| a <= k < lo ==> is_trim_char(s@[k]),
                decreases i - lo,
            {
                lo = lo + 1;
            }
            let mut hi = i;
            while hi > lo && is_trim(s.get_char(hi - 1))
                invariant
                    n == s@.len(),
                    a <= lo <= hi <= i <= n,
                    forall|k: int| hi <= k < i ==> is_trim_char(s@[k]),
                decreases hi - lo,
            {
                hi = hi - 1;
            }
            proof {
                lemma_tokens_acc_run(s@, a as int, i as int, Seq::empty());
                assert(Seq::empty() + s@.subrange(a as int, i as int) =~= s@.subrange(
                    a as int,
                    i as int,
                ));
                lemma_tokens_acc_boundary(s@, i as int, s@.subrange(a as int, i as int));
                lemma_clean_token_list_add(
                    seq![s@.subrange(a as int, i as int)],
                    tokens_acc(s@, i as int, Seq::empty()),
                );
                lemma_trim_front_subrange(s@, a as int, lo as int, i as int);
                lemma_trim_back_subrange(s@, lo as int, hi as int, i as int);
                lemma_clean_token_list_singleton(s@.subrange(a as int, i as int));
            }
            if lo < hi {
                let piece = s.substring_char(lo, hi);
                let word = piece.to_owned();
                let ghost old_tokens = tokens@;
                tokens.push(word);
                proof {
                    assert(tokens@.map_values(|t: String| t@) =~= old_tokens.map_values(
                        |t: String| t@,
                    ).push(s@.subrange(lo as int, hi as int)));
                    assert(old_tokens.map_values(|t: String| t@).push(
                        s@.subrange(lo as int, hi as int),
                    ) =~= old_tokens.map_values(|t: String| t@) + seq![
                        s@.subrange(lo as int, hi as int),
                    ]);
                }
            }
        }
    }
    proof {
        assert(clean_token_list(tokens_acc(s@, n as int, Seq::empty())) =~= Seq::<
            Seq<char>,
        >::empty());
        assert(tokens@.map_values(|t: String| t@) + Seq::<Seq<char>>::empty() =~= tokens@
            .map_values(|t: String| t@));
    }
    tokens
}

// ---------------------------------------------------------------------------
// Tab-separated fields
// ---------------------------------------------------------------------------

/// The fields of `s` from position `i` on, with `cur` the field accumulated
/// so far. Unlike whitespace tokenization, every field is kept, also an
/// empty one, so a line always has one field more than it has tabs.
pub open spec fn fields_acc(s: Seq<char>, i: int, cur: Seq<char>) -> Seq<Seq<char>>
    decreases s.len() - i,
{
    if i < 0 || i >= s.len() {
        seq![cur]
    } else if s[i] == '\t' {
        seq![cur] + fields_acc(s, i + 1, Seq::empty())
    } else {
        fields_acc(s, i + 1, cur.push(s[i]))
    }
}

/// The tab-separated fields of a line.
pub open spec fn tsv_fields(s: Seq<char>) -> Seq<Seq<char>> {
    fields_acc(s, 0, Seq::empty())
}

/// Splits a line at its tabs, keeping empty fields.
pub fn split_tabs(s: &str) -> (fields: Vec<String>)
    ensures
        fields@.map_values(|f: String| f@) == tsv_fields(s@),
        fields@.len() >= 1,
{
    let n = s.unicode_len();
    let mut fields: Vec<String> = Vec::new();
    let mut a: usize = 0;
    let mut i: usize = 0;
    proof {
        assert(s@.subrange(0, 0) =~= Seq::<char>::empty());
        assert(fields@.map_values(|f: String| f@) =~= Seq::<Seq<char>>::empty());
        assert(Seq::<Seq<char>>::empty() + fields_acc(s@, 0, Seq::empty()) =~= fields_acc(
            s@,
            0,
            Seq::empty(),
        ));
    }
    while i < n
        invariant
            n == s@.len(),
            0 <= a <= i <= n,
            forall|k: int| a <= k < i ==> s@[k] != '\t',
            tsv_fields(s@) == fields@.map_values(|f: String| f@) + fields_acc(
                s@,
                i as int,
                s@.subrange(a as int, i as int),
            ),
        decreases n - i,
    {
        let c = s.get_char(i);
        if c == '\t' {
            let piece = s.substring_char(a, i);
            let field = piece.to_owned();
            let ghost old_fields = fields@;
            fields.push(field);
            proof {
                assert(fields@.map_values(|f: String| f@) =~= old_fields.map_values(
                    |f: String| f@,
                ) + seq![s@.subrange(a as int, i as int)]);
                assert((old_fields.map_values(|f: String| f@) + seq![
                    s@.subrange(a as int, i as int),
                ]) + fields_acc(s@, i + 1 as int, Seq::empty()) =~= old_fields.map_values(
                    |f: String| f@,
                ) + (seq![s@.subrange(a as int, i as int)] + fields_acc(
                    s@,
                    i + 1 as int,
                    Seq::empty(),
                )));
            }
            a = i + 1;
            i = i + 1;
            proof {
                assert(s@.subrange(a as int, i as int) =~= Seq::<char>::empty());
            }
        } else {
            i = i + 1;
            proof {
                assert(s@.subrange(a as int, i as int) =~= s@.subrange(a as int, i - 1).push(
                    s@[i - 1],
                ));
            }
        }
    }
    let piece = s.substring_char(a, n);
    let field = piece.to_owned();
    let ghost old_fields = fields@;
    fields.push(field);
    proof {
        assert(fields@.map_values(|f: String| f@) =~= old_fields.map_values(|f: String| f@) + seq![
            s@.subrange(a as int, n as int),
        ]);
    }
    fields
}

// ---------------------------------------------------------------------------
// Decimal integer parsing
// ---------------------------------------------------------------------------

/// Numeric value of a digit character.
pub open spec fn digit_val(c: char) -> int {
    c as int - '0' as int
}

/// Value of a string of digit characters read left to right, base ten.
pub open spec fn digits_val(s: Seq<char>) -> int
    decreases s.len(),
{
    if s.len() == 0 {
        0
    } else {
        digits_val(s.drop_last()) * 10 + digit_val(s.last())
    }
}

/// The digits of an integer literal: everything after an optional sign.
pub open spec fn int_body(s: Seq<char>) -> Seq<char> {
    if s.len() > 0 && (s[0] == '+' || s[0] == '-') {
        s.drop_first()
    } else {
        s
    }
}

/// The sign of an integer literal.
pub open spec fn int_sign(s: Seq<char>) -> int {
    if s.len() > 0 && s[0] == '-' {
        -1
    } else {
        1
    }
}

/// Whether `s` is a decimal integer literal: an optional sign followed by
/// one or more digits and nothing else.
pub open spec fn is_int_literal(s: Seq<char>) -> bool {
    int_body(s).len() > 0 && forall|k: int|
        0 <= k < int_body(s).len() ==> is_digit_char(int_body(s)[k])
}

/// The mathematical value of an integer literal.
pub open spec fn int_literal_val(s: Seq<char>) -> int {
    int_sign(s) * digits_val(int_body(s))
}

/// Whether `s` parses as an `i32`: an integer literal whose value fits.
pub open spec fn parses_to_i32(s: Seq<char>) -> bool {
    is_int_literal(s) && -0x8000_0000 <= int_literal_val(s) <= 0x7fff_ffff
}

proof fn lemma_digits_val_nonneg(s: Seq<char>)
    requires
        forall|k: int| 0 <= k < s.len() ==> is_digit_char(s[k]),
    ensures
        digits_val(s) >= 0,
    decreases s.len(),
{
    if s.len() > 0 {
        lemma_digits_val_nonneg(s.drop_last());
    }
}

/// Parses a decimal `i32` as the corpus feeds write row ids: an optional
/// sign, then digits. Returns `Malformed` exactly on the strings that are
/// not `i32` literals.
pub fn parse_i32(s: &str) -> (r: Result<i32, Error>)
    ensures
        r is Ok <==> parses_to_i32(s@),
        r matches Ok(v) ==> v as int == int_literal_val(s@),
        r matches Err(e) ==> e is Malformed,
{
    let n = s.unicode_len();
    let mut start: usize = 0;
    let mut negative = false;
    if n > 0 {
        let c0 = s.get_char(0);
        if c0 == '+' {
            start = 1;
        } else if c0 == '-' {
            start = 1;
            negative = true;
        }
    }
    let ghost body = int_body(s@);
    proof {
        assert(body =~= s@.subrange(start as int, n as int));
    }
    if start == n {
        return Err(Error::Malformed(String::from_str("empty integer literal")));
    }
    let mut acc: i64 = 0;
    let mut too_big = false;
    let mut i = start;
    while i < n
        invariant
            n == s@.len(),
            start <= i <= n,
            body == s@.subrange(start as int, n as int),
            body == int_body(s@),
            forall|k: int| start <= k < i ==> is_digit_char(s@[k]),
            !too_big ==> 0 <= acc <= 0x8000_0000i64 && acc as int == digits_val(
                s@.subrange(start as int, i as int),
            ),
            too_big ==> digits_val(s@.subrange(start as int, i as int)) > 0x8000_0000,
        decreases n - i,
    {
        let c = s.get_char(i);
        if !is_digit(c) {
            assert(!is_digit_char(body[i - start]));
            return Err(Error::Malformed(String::from_str("expected a digit")));
        }
        let ghost pre = s@.subrange(start as int, i as int);
        let ghost post = s@.subrange(start as int, i + 1 as int);
        proof {
            assert(post.drop_last() =~= pre);
            assert(post.last() == s@[i as int]);
            lemma_digits_val_nonneg(pre);
        }
        if !too_big {
            let d = (c as u32 - '0' as u32) as i64;
            acc = acc * 10 + d;
            if acc > 0x8000_0000i64 {
                too_big = true;
            }
        }
        i = i + 1;
    }
    proof {
        assert(s@.subrange(start as int, n as int) == body);
        assert(forall|k: int| 0 <= k < body.len() ==> is_digit_char(body[k]));
        assert(is_int_literal(s@));
    }
    if too_big {
        return Err(Error::Malformed(String::from_str("integer literal out of range")));
    }
    if negative {
        assert(int_sign(s@) == -1);
        Ok((-acc) as i32)
    } else {
        if acc > 0x7fff_ffffi64 {
            return Err(Error::Malformed(String::from_str("integer literal out of range")));
        }
        assert(int_sign(s@) == 1);
        Ok(acc as i32)
    }
}

} // verus!
