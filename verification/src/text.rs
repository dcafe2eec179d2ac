//! Characters, whitespace, and decimal rendering of time values.
use vstd::prelude::*;

verus! {

/// The whitespace characters that separate command tokens.
pub open spec fn is_ws(c: char) -> bool {
    c == ' ' || c == '\t' || c == '\n' || c == '\r'
}

/// Executable twin of [`is_ws`].
pub fn ws_char(c: char) -> (r: bool)
    ensures
        r == is_ws(c),
{
    c == ' ' || c == '\t' || c == '\n' || c == '\r'
}

/// The decimal digit characters.
pub open spec fn is_digit(c: char) -> bool {
    '0' <= c && c <= '9'
}

/// Executable twin of [`is_digit`].
pub fn digit_char(c: char) -> (r: bool)
    ensures
        r == is_digit(c),
{
    '0' <= c && c <= '9'
}

/// The numeric value of a digit character.
pub open spec fn digit_val(c: char) -> nat {
    (c as nat - '0' as nat) as nat
}

/// The digit character for a value below ten.
pub open spec fn val_digit(d: nat) -> char {
    if d == 0 { '0' }
    else if d == 1 { '1' }
    else if d == 2 { '2' }
    else if d == 3 { '3' }
    else if d == 4 { '4' }
    else if d == 5 { '5' }
    else if d == 6 { '6' }
    else if d == 7 { '7' }
    else if d == 8 { '8' }
    else { '9' }
}

/// The decimal rendering of a number, most significant digit first.
pub open spec fn dec_digits(n: nat) -> Seq<char>
    decreases n,
{
    if n < 10 {
        seq![val_digit(n)]
    } else {
        dec_digits(n / 10) + seq![val_digit(n % 10)]
    }
}

/// The number denoted by a sequence of digit characters.
pub open spec fn dec_val(s: Seq<char>) -> nat
    decreases s.len(),
{
    if s.len() == 0 {
        0
    } else {
        dec_val(s.drop_last()) * 10 + digit_val(s.last())
    }
}

/// Every character of a decimal rendering is a digit.
pub proof fn lemma_dec_digits_are_digits(n: nat)
    ensures
        dec_digits(n).len() >= 1,
        forall|i: int| 0 <= i < dec_digits(n).len() ==> is_digit(#[trigger] dec_digits(n)[i]),
    decreases n,
{
    if n < 10 {
    } else {
        lemma_dec_digits_are_digits(n / 10);
    }
}

/// A digit value survives rendering as a character.
pub proof fn lemma_digit_round_trip(d: nat)
    requires
        d < 10,
    ensures
        digit_val(val_digit(d)) == d,
{
}

/// Reading back a decimal rendering gives the number it renders.
pub proof fn lemma_dec_round_trip(n: nat)
    ensures
        dec_val(dec_digits(n)) == n,
    decreases n,
{
    if n < 10 {
        let s = dec_digits(n);
        assert(s.drop_last() =~= Seq::<char>::empty());
        lemma_digit_round_trip(n);
        assert(dec_val(s) == dec_val(s.drop_last()) * 10 + digit_val(s.last()));
    } else {
        lemma_dec_round_trip(n / 10);
        lemma_digit_round_trip(n % 10);
        let s = dec_digits(n);
        let hd = dec_digits(n / 10);
        assert(s.drop_last() =~= hd);
        assert(s.last() == val_digit(n % 10));
        assert(dec_val(s) == dec_val(hd) * 10 + digit_val(val_digit(n % 10)));
    }
}

/// Renders a number in decimal.
pub fn u64_to_string(n: u64) -> (r: String)
    ensures
        r@ == dec_digits(n as nat),
    decreases n,
{
    if n < 10 {
        let d = digit_to_char((n % 10) as u8);
        let mut s = String::new();
        s.append(d);
        assert(s@ =~= dec_digits(n as nat));
        s
    } else {
        let mut s = u64_to_string(n / 10);
        let d = digit_to_char((n % 10) as u8);
        s.append(d);
        assert(s@ =~= dec_digits(n as nat));
        s
    }
}

/// The position where the token beginning at `i` ends: the first
/// whitespace character at or past `i`, or the end of the text.
pub open spec fn token_end(s: Seq<char>, i: int) -> int
    decreases s.len() - i,
{
    if i < 0 || i >= s.len() || is_ws(s[i]) {
        i
    } else {
        token_end(s, i + 1)
    }
}

/// Where the token scan stops, and that everything before it is
/// token material.
pub proof fn lemma_token_end(s: Seq<char>, i: int)
    requires
        0 <= i <= s.len(),
    ensures
        i <= token_end(s, i) <= s.len(),
        forall|k: int| i <= k < token_end(s, i) ==> !is_ws(#[trigger] s[k]),
        i < s.len() && !is_ws(s[i]) ==> token_end(s, i) > i,
    decreases s.len() - i,
{
    if i < s.len() && !is_ws(s[i]) {
        lemma_token_end(s, i + 1);
    }
}

/// The whitespace-separated tokens of the text, from position `i`
/// on, in order.
pub open spec fn tokens_from(s: Seq<char>, i: int) -> Seq<Seq<char>>
    decreases s.len() - i,
{
    if i < 0 || i >= s.len() {
        Seq::empty()
    } else if is_ws(s[i]) {
        tokens_from(s, i + 1)
    } else {
        let e0 = token_end(s, i);
        let e = if e0 > s.len() {
            s.len() as int
        } else {
            e0
        };
        if e <= i {
            Seq::empty()
        } else {
            seq![s.subrange(i, e)] + tokens_from(s, e)
        }
    }
}

/// The whitespace-separated tokens of the text.
pub open spec fn spec_tokens(s: Seq<char>) -> Seq<Seq<char>> {
    tokens_from(s, 0)
}

/// Every token is non-empty.
pub proof fn lemma_tokens_nonempty(s: Seq<char>, i: int)
    requires
        0 <= i,
    ensures
        forall|k: int| 0 <= k < tokens_from(s, i).len() ==> (#[trigger] tokens_from(s, i)[k]).len()
            > 0,
    decreases s.len() - i,
{
    if i < s.len() {
        if is_ws(s[i]) {
            lemma_tokens_nonempty(s, i + 1);
            assert forall|k: int| 0 <= k < tokens_from(s, i).len() implies (
            #[trigger] tokens_from(s, i)[k]).len() > 0 by {
                assert(tokens_from(s, i)[k] == tokens_from(s, i + 1)[k]);
            }
        } else {
            lemma_token_end(s, i);
            let e = token_end(s, i);
            lemma_tokens_nonempty(s, e);
            assert forall|k: int| 0 <= k < tokens_from(s, i).len() implies (
            #[trigger] tokens_from(s, i)[k]).len() > 0 by {
                if k == 0 {
                    assert(tokens_from(s, i)[0] == s.subrange(i, e));
                } else {
                    assert(tokens_from(s, i)[k] == tokens_from(s, e)[k - 1]);
                }
            }
        }
    }
}

/// Finds the end of the token beginning at `i`.
fn find_token_end(s: &str, n: usize, i: usize) -> (e: usize)
    requires
        n == s@.len(),
        i <= n,
    ensures
        i <= e <= n,
        e as int == token_end(s@, i as int),
{
    let mut j = i;
    loop
        invariant
            n == s@.len(),
            i <= j <= n,
            token_end(s@, i as int) == token_end(s@, j as int),
        ensures
            i <= j <= n,
            token_end(s@, i as int) == j as int,
        decreases n - j,
    {
        if j >= n {
            break;
        }
        let c = s.get_char(j);
        if ws_char(c) {
            break;
        }
        j += 1;
    }
    j
}

/// Splits the line into its whitespace-separated tokens.
pub fn tokenize(line: &str) -> (r: Vec<String>)
    ensures
        r@.map_values(|t: String| t@) == spec_tokens(line@),
        forall|k: int| 0 <= k < r@.len() ==> (#[trigger] r@[k])@.len() > 0,
{
    let n = line.unicode_len();
    let mut toks: Vec<String> = Vec::new();
    let mut i: usize = 0;
    while i < n
        invariant
            i <= n,
            n == line@.len(),
            spec_tokens(line@) == toks@.map_values(|t: String| t@) + tokens_from(
                line@,
                i as int,
            ),
            forall|k: int| 0 <= k < toks@.len() ==> (#[trigger] toks@[k])@.len() > 0,
        decreases n - i,
    {
        let c = line.get_char(i);
        if ws_char(c) {
            i += 1;
        } else {
            let e = find_token_end(line, n, i);
            proof {
                lemma_token_end(line@, i as int);
            }
            let sub = line.substring_char(i, e);
            let t = String::from_str(sub);
            let ghost pre = toks@.map_values(|x: String| x@);
            let ghost piece = line@.subrange(i as int, e as int);
            toks.push(t);
            proof {
                assert(toks@.map_values(|x: String| x@) =~= pre.push(piece));
                assert(pre + (seq![piece] + tokens_from(line@, e as int)) =~= pre.push(piece)
                    + tokens_from(line@, e as int));
            }
            i = e;
        }
    }
    proof {
        assert(toks@.map_values(|t: String| t@) + Seq::<Seq<char>>::empty() =~= toks@.map_values(
            |t: String| t@,
        ));
    }
    toks
}

/// Hands back the one-character string for a digit value.
fn digit_to_char(d: u8) -> (r: &'static str)
    requires
        d < 10,
    ensures
        r@ =~= seq![val_digit(d as nat)],
{
    let r: &'static str = if d == 0 { "0" }
    else if d == 1 { "1" }
    else if d == 2 { "2" }
    else if d == 3 { "3" }
    else if d == 4 { "4" }
    else if d == 5 { "5" }
    else if d == 6 { "6" }
    else if d == 7 { "7" }
    else if d == 8 { "8" }
    else { "9" };
    proof {
        reveal_strlit("0");
        reveal_strlit("1");
        reveal_strlit("2");
        reveal_strlit("3");
        reveal_strlit("4");
        reveal_strlit("5");
        reveal_strlit("6");
        reveal_strlit("7");
        reveal_strlit("8");
        reveal_strlit("9");
    }
    r
}

} // verus!
