//! The textual snapshot format: a state is flattened to a stream of 32-bit
//! words, and the stream is written as text, one fixed-width decimal block
//! per word. Both layers are proved to round-trip exactly.

use vstd::prelude::*;
use vstd::string::StrSliceExecFns;
use vstd::string::StringExecFns;

verus! {

/// Ten to the `k`-th power.
pub open spec fn spec_pow10(k: nat) -> nat
    decreases k,
{
    if k == 0 {
        1
    } else {
        10 * spec_pow10((k - 1) as nat)
    }
}

/// The decimal digit character for a value below ten.
pub open spec fn spec_digit_char(d: int) -> char {
    if d == 0 {
        '0'
    } else if d == 1 {
        '1'
    } else if d == 2 {
        '2'
    } else if d == 3 {
        '3'
    } else if d == 4 {
        '4'
    } else if d == 5 {
        '5'
    } else if d == 6 {
        '6'
    } else if d == 7 {
        '7'
    } else if d == 8 {
        '8'
    } else {
        '9'
    }
}

/// The value of a decimal digit character, or -1 for any other character.
pub open spec fn spec_char_digit(c: char) -> int {
    if c == '0' {
        0
    } else if c == '1' {
        1
    } else if c == '2' {
        2
    } else if c == '3' {
        3
    } else if c == '4' {
        4
    } else if c == '5' {
        5
    } else if c == '6' {
        6
    } else if c == '7' {
        7
    } else if c == '8' {
        8
    } else if c == '9' {
        9
    } else {
        -1
    }
}

/// One word as text: ten decimal digits, most significant first, then one
/// space.
pub open spec fn spec_render_word(v: u32) -> Seq<char> {
    Seq::new(10, |j: int| spec_digit_char((v as int / spec_pow10((9 - j) as nat) as int) % 10)).push(
        ' ',
    )
}

/// A word stream as text: the concatenation of its words' blocks.
pub open spec fn spec_render_words(ts: Seq<u32>) -> Seq<char>
    decreases ts.len(),
{
    if ts.len() == 0 {
        Seq::empty()
    } else {
        spec_render_word(ts[0]) + spec_render_words(ts.skip(1))
    }
}

/// Read `k` digits starting at `i`, extending the accumulator; -1 when a
/// non-digit appears.
pub open spec fn spec_parse_digits(s: Seq<char>, i: int, k: nat, acc: int) -> int
    decreases k,
{
    if k == 0 {
        acc
    } else if 0 <= i < s.len() && spec_char_digit(s[i]) >= 0 {
        spec_parse_digits(s, i + 1, (k - 1) as nat, acc * 10 + spec_char_digit(s[i]))
    } else {
        -1
    }
}

/// Parse one eleven-character block at `i`: ten digits and a space; `None`
/// when malformed or out of the 32-bit range.
pub open spec fn spec_parse_word(s: Seq<char>, i: int) -> Option<u32> {
    let v = spec_parse_digits(s, i, 10, 0);
    if v < 0 || v > u32::MAX || !(0 <= i + 10 < s.len()) || s[i + 10] != ' ' {
        None
    } else {
        Some(v as u32)
    }
}

/// Parse a whole text into its word stream; `None` when any block is
/// malformed or the text length is not a multiple of eleven.
pub open spec fn spec_parse_words_from(s: Seq<char>, i: int) -> Option<Seq<u32>>
    decreases s.len() - i,
{
    if i == s.len() {
        Some(Seq::empty())
    } else if i + 11 <= s.len() {
        match spec_parse_word(s, i) {
            Option::Some(v) => match spec_parse_words_from(s, i + 11) {
                Option::Some(rest) => Some(seq![v] + rest),
                Option::None => None,
            },
            Option::None => None,
        }
    } else {
        None
    }
}

/// Parse a whole text into its word stream.
pub open spec fn spec_parse_words(s: Seq<char>) -> Option<Seq<u32>> {
    spec_parse_words_from(s, 0)
}

/// A digit character reads back as its value.
proof fn lemma_digit_round_trip(d: int)
    requires
        0 <= d < 10,
    ensures
        spec_char_digit(spec_digit_char(d)) == d,
{
}

/// Reading the rendered digits of `v` from position `j` onward yields the
/// accumulator shifted in, plus `v`'s low digits.
proof fn lemma_parse_render_digits(v: u32, s: Seq<char>, base: int, j: int, acc: int)
    requires
        0 <= j <= 10,
        0 <= base,
        base + 10 <= s.len(),
        0 <= acc,
        forall|p: int|
            0 <= p < 10 ==> #[trigger] s[base + p] == spec_digit_char(
                (v as int / spec_pow10((9 - p) as nat) as int) % 10,
            ),
    ensures
        spec_parse_digits(s, base + j, (10 - j) as nat, acc) == acc * spec_pow10(
            (10 - j) as nat,
        ) + (v as int) % (spec_pow10((10 - j) as nat) as int),
    decreases 10 - j,
{
    if j == 10 {
        vstd::arithmetic::div_mod::lemma_mod_bound(v as int, 1);
        assert(spec_pow10((10 - j) as nat) == 1);
        assert(acc * spec_pow10((10 - j) as nat) == acc) by (nonlinear_arith)
            requires
                spec_pow10((10 - j) as nat) == 1,
        ;
    } else {
        let p9 = spec_pow10((9 - j) as nat) as int;
        lemma_pow10_pos((9 - j) as nat);
        vstd::arithmetic::div_mod::lemma_div_pos_is_pos(v as int, p9);
        vstd::arithmetic::div_mod::lemma_mod_bound(v as int / p9, 10);
        let d = (v as int / p9) % 10;
        lemma_digit_round_trip(d);
        assert(s[base + j] == spec_digit_char(d));
        assert(spec_parse_digits(s, base + j, (10 - j) as nat, acc) == spec_parse_digits(
            s,
            base + j + 1,
            (9 - j) as nat,
            acc * 10 + d,
        ));
        lemma_parse_render_digits(v, s, base, j + 1, acc * 10 + d);
        let pw = spec_pow10((10 - j) as nat) as int;
        assert(spec_pow10((10 - j) as nat) == 10 * spec_pow10((9 - j) as nat));
        assert(pw == 10 * p9);
        vstd::arithmetic::div_mod::lemma_breakdown(v as int, p9, 10);
        assert(p9 * 10 == 10 * p9) by (nonlinear_arith);
        assert((v as int) % pw == p9 * d + (v as int) % p9);
        assert(spec_parse_digits(s, base + j + 1, (9 - j) as nat, acc * 10 + d) == (acc * 10 + d)
            * p9 + (v as int) % p9);
        assert((acc * 10 + d) * p9 + (v as int) % p9 == acc * pw + (v as int) % pw)
            by (nonlinear_arith)
            requires
                pw == 10 * p9,
                (v as int) % pw == p9 * d + (v as int) % p9,
        ;
    }
}

/// The tenth power of ten, written out.
proof fn lemma_pow10_value()
    ensures
        spec_pow10(10) == 10_000_000_000,
        spec_pow10(9) == 1_000_000_000,
{
    assert(spec_pow10(0) == 1);
    assert(spec_pow10(1) == 10);
    assert(spec_pow10(2) == 100);
    assert(spec_pow10(3) == 1000);
    assert(spec_pow10(4) == 10000);
    assert(spec_pow10(5) == 100000);
    assert(spec_pow10(6) == 1000000);
    assert(spec_pow10(7) == 10000000);
    assert(spec_pow10(8) == 100000000);
    assert(spec_pow10(9) == 1000000000);
}

/// Powers of ten are positive.
proof fn lemma_pow10_pos(k: nat)
    ensures
        spec_pow10(k) >= 1,
    decreases k,
{
    if k > 0 {
        lemma_pow10_pos((k - 1) as nat);
    }
}

/// A rendered word parses back to its value.
proof fn lemma_word_round_trip(v: u32, s: Seq<char>, i: int)
    requires
        0 <= i,
        i + 11 <= s.len(),
        s.subrange(i, i + 11) == spec_render_word(v),
    ensures
        spec_parse_word(s, i) == Some(v),
{
    assert forall|p: int| 0 <= p < 10 implies #[trigger] s[i + p] == spec_digit_char(
        (v as int / spec_pow10((9 - p) as nat) as int) % 10,
    ) by {
        assert(s.subrange(i, i + 11)[p] == s[i + p]);
    }
    assert(s[i + 10] == ' ') by {
        assert(s.subrange(i, i + 11)[10] == s[i + 10]);
    }
    lemma_parse_render_digits(v, s, i, 0, 0);
    lemma_pow10_value();
    vstd::arithmetic::div_mod::lemma_small_mod(v as nat, spec_pow10(10));
}

/// The text of a word stream has eleven characters per word.
proof fn lemma_render_words_len(ts: Seq<u32>)
    ensures
        spec_render_words(ts).len() == 11 * ts.len(),
    decreases ts.len(),
{
    if ts.len() > 0 {
        lemma_render_words_len(ts.skip(1));
    }
}

/// A rendered word stream parses back to itself, starting at `i`.
proof fn lemma_words_round_trip_from(ts: Seq<u32>, s: Seq<char>, i: int)
    requires
        0 <= i <= s.len(),
        s.len() == i + 11 * ts.len(),
        s.skip(i) == spec_render_words(ts),
    ensures
        spec_parse_words_from(s, i) == Some(ts),
    decreases ts.len(),
{
    if ts.len() == 0 {
    } else {
        assert(s.subrange(i, i + 11) =~= spec_render_word(ts[0])) by {
            assert forall|p: int| 0 <= p < 11 implies s.subrange(i, i + 11)[p] == spec_render_word(
                ts[0],
            )[p] by {
                assert(s.skip(i)[p] == s[i + p]);
                assert(spec_render_words(ts)[p] == (spec_render_word(ts[0])
                    + spec_render_words(ts.skip(1)))[p]);
            }
        }
        lemma_word_round_trip(ts[0], s, i);
        lemma_render_words_len(ts.skip(1));
        assert(s.skip(i + 11) =~= spec_render_words(ts.skip(1))) by {
            assert forall|p: int| 0 <= p < s.len() - i - 11 implies s.skip(i + 11)[p]
                == spec_render_words(ts.skip(1))[p] by {
                assert(s.skip(i)[11 + p] == s[i + 11 + p]);
                assert((spec_render_word(ts[0]) + spec_render_words(ts.skip(1)))[11 + p]
                    == spec_render_words(ts.skip(1))[p]);
            }
        }
        lemma_words_round_trip_from(ts.skip(1), s, i + 11);
        assert(seq![ts[0]] + ts.skip(1) =~= ts);
    }
}

/// LAW — the textual layer round-trips: parsing the rendered text of any
/// word stream yields exactly that stream.
pub proof fn lemma_text_round_trip(ts: Seq<u32>)
    ensures
        spec_parse_words(spec_render_words(ts)) == Some(ts),
{
    lemma_render_words_len(ts);
    let s = spec_render_words(ts);
    assert(s.skip(0) =~= s);
    lemma_words_round_trip_from(ts, s, 0);
}

/// The value of a decimal digit character, or -1.
fn char_digit(c: char) -> (d: i32)
    ensures
        d == spec_char_digit(c),
{
    if c == '0' {
        0
    } else if c == '1' {
        1
    } else if c == '2' {
        2
    } else if c == '3' {
        3
    } else if c == '4' {
        4
    } else if c == '5' {
        5
    } else if c == '6' {
        6
    } else if c == '7' {
        7
    } else if c == '8' {
        8
    } else if c == '9' {
        9
    } else {
        -1
    }
}

/// The one-character text of a digit value.
fn digit_str(d: u64) -> (r: &'static str)
    requires
        d < 10,
    ensures
        r@ == seq![spec_digit_char(d as int)],
{
    proof {
        reveal_strlit("0");
        reveal_strlit("1");
        reveal_strlit("2");
        reveal_strlit("3");
        reveal_strlit("4");
        reveal_strlit("5");
        reveal_strlit("6");
        reveal_strlit("7");
        reveal_strlit("8");
        reveal_strlit("9");
    }
    let r = if d == 0 {
        "0"
    } else if d == 1 {
        "1"
    } else if d == 2 {
        "2"
    } else if d == 3 {
        "3"
    } else if d == 4 {
        "4"
    } else if d == 5 {
        "5"
    } else if d == 6 {
        "6"
    } else if d == 7 {
        "7"
    } else if d == 8 {
        "8"
    } else {
        "9"
    };
    proof {
        assert(r@ =~= seq![spec_digit_char(d as int)]);
    }
    r
}

/// Ten to the `k`-th power, executable.
pub(crate) fn pow10(k: u32) -> (r: u64)
    requires
        k <= 10,
    ensures
        r == spec_pow10(k as nat),
        r >= 1,
    decreases k,
{
    proof {
        lemma_pow10_value();
        lemma_pow10_le(k as nat, 10);
    }
    if k == 0 {
        1
    } else {
        10 * pow10(k - 1)
    }
}

/// Powers of ten are monotone in the exponent.
proof fn lemma_pow10_le(a: nat, b: nat)
    requires
        a <= b,
    ensures
        spec_pow10(a) <= spec_pow10(b),
    decreases b,
{
    lemma_pow10_pos(a);
    if a < b {
        lemma_pow10_le(a, (b - 1) as nat);
        lemma_pow10_pos((b - 1) as nat);
    }
}

/// Append the text of one word.
fn render_word(v: u32, out: &mut String)
    ensures
        final(out)@ == old(out)@ + spec_render_word(v),
{
    let ghost base = out@;
    let mut j: u32 = 0;
    while j < 10
        invariant
            0 <= j <= 10,
            out@ == base + Seq::new(j as nat, |p: int| spec_digit_char(
                (v as int / spec_pow10((9 - p) as nat) as int) % 10,
            )),
        decreases 10 - j,
    {
        let p = pow10(9 - j);
        let d = (v as u64 / p) % 10;
        proof {
            assert(d == (v as int / spec_pow10((9 - j) as nat) as int) % 10);
        }
        out.append(digit_str(d));
        proof {
            assert(out@ =~= base + Seq::new((j + 1) as nat, |p: int| spec_digit_char(
                (v as int / spec_pow10((9 - p) as nat) as int) % 10,
            )));
        }
        j = j + 1;
    }
    proof {
        reveal_strlit(" ");
    }
    out.append(" ");
    proof {
        assert(out@ =~= base + spec_render_word(v));
    }
}

/// The text of a whole word stream.
pub fn render_words(ts: &Vec<u32>) -> (out: String)
    ensures
        out@ == spec_render_words(ts@),
{
    let mut out = String::new();
    let mut i: usize = 0;
    while i < ts.len()
        invariant
            0 <= i <= ts@.len(),
            out@ == spec_render_words(ts@.take(i as int)),
        decreases ts@.len() - i,
    {
        render_word(ts[i], &mut out);
        proof {
            lemma_render_words_push(ts@.take(i as int), ts@[i as int]);
            assert(ts@.take(i + 1) =~= ts@.take(i as int).push(ts@[i as int]));
        }
        i = i + 1;
    }
    proof {
        assert(ts@.take(ts@.len() as int) =~= ts@);
    }
    out
}

/// Rendering distributes over a push at the end.
proof fn lemma_render_words_push(ts: Seq<u32>, v: u32)
    ensures
        spec_render_words(ts.push(v)) == spec_render_words(ts) + spec_render_word(v),
    decreases ts.len(),
{
    if ts.len() == 0 {
        assert(ts.push(v)[0] == v);
        assert(ts.push(v).skip(1) =~= Seq::<u32>::empty());
        assert(spec_render_words(Seq::<u32>::empty()) == Seq::<char>::empty());
        assert(spec_render_words(ts.push(v)) == spec_render_word(v) + Seq::<char>::empty());
        assert(spec_render_word(v) + Seq::<char>::empty() =~= spec_render_word(v));
        assert(spec_render_words(ts) == Seq::<char>::empty());
        assert(spec_render_words(ts) + spec_render_word(v) =~= spec_render_word(v));
    } else {
        assert(ts.push(v).skip(1) =~= ts.skip(1).push(v));
        lemma_render_words_push(ts.skip(1), v);
        assert(spec_render_words(ts.push(v)) =~= spec_render_words(ts) + spec_render_word(v));
    }
}

/// Parse a whole text into its word stream; `None` exactly when the spec
/// parser rejects it.
pub fn parse_words(s: &str) -> (r: Option<Vec<u32>>)
    ensures
        match r {
            Option::Some(v) => spec_parse_words(s@) == Some(v@),
            Option::None => spec_parse_words(s@) is None,
        },
{
    let n = s.unicode_len();
    let mut out: Vec<u32> = Vec::new();
    let mut i: usize = 0;
    while i < n
        invariant
            0 <= i <= n,
            n == s@.len(),
            spec_parse_words_from(s@, 0) == (match spec_parse_words_from(s@, i as int) {
                Option::Some(rest) => Some(out@ + rest),
                Option::None => None::<Seq<u32>>,
            }),
        decreases n - i,
    {
        if n - i < 11 {
            return None;
        }
        let mut acc: u64 = 0;
        let mut k: usize = 0;
        while k < 10
            invariant
                0 <= k <= 10,
                0 <= i,
                i + 11 <= n,
                n == s@.len(),
                acc < spec_pow10(k as nat),
                spec_parse_digits(s@, i as int, 10, 0) == spec_parse_digits(
                    s@,
                    i + k,
                    (10 - k) as nat,
                    acc as int,
                ),
                spec_parse_words_from(s@, 0) == (match spec_parse_words_from(s@, i as int) {
                    Option::Some(rest) => Some(out@ + rest),
                    Option::None => None::<Seq<u32>>,
                }),
            decreases 10 - k,
        {
            let c = s.get_char(i + k);
            let d = char_digit(c);
            if d < 0 {
                proof {
                    assert(spec_parse_digits(s@, i + k, (10 - k) as nat, acc as int) == -1);
                    assert(spec_parse_digits(s@, i as int, 10, 0) == -1);
                    assert(spec_parse_word(s@, i as int) is None);
                    assert(spec_parse_words_from(s@, i as int) is None);
                }
                return None;
            }
            proof {
                assert(spec_pow10((k + 1) as nat) == 10 * spec_pow10(k as nat));
                lemma_pow10_value();
                lemma_pow10_le(k as nat, 9);
            }
            acc = acc * 10 + (d as u64);
            k = k + 1;
        }
        proof {
            assert(spec_parse_digits(s@, i + 10, 0, acc as int) == acc);
            lemma_pow10_value();
        }
        proof {
            assert(spec_parse_digits(s@, i as int, 10, 0) == acc);
        }
        let c = s.get_char(i + 10);
        if c != ' ' {
            proof {
                assert(spec_parse_word(s@, i as int) is None);
                assert(spec_parse_words_from(s@, i as int) is None);
            }
            return None;
        }
        if acc > u32::MAX as u64 {
            proof {
                assert(spec_parse_word(s@, i as int) is None);
                assert(spec_parse_words_from(s@, i as int) is None);
            }
            return None;
        }
        out.push(acc as u32);
        proof {
            assert(spec_parse_word(s@, i as int) == Some(acc as u32));
        }
        i = i + 11;
    }
    proof {
        assert(spec_parse_words_from(s@, n as int) == Some(Seq::<u32>::empty()));
        assert(out@ + Seq::<u32>::empty() =~= out@);
    }
    Some(out)
}

} // verus!
