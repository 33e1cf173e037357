use vstd::prelude::*;
use vstd::string::*;

verus! {

/// The decimal digit `d` (0 to 9) as a character.
pub open spec fn digit_char(d: nat) -> char {
    if d == 0 {
        '0'
    } else if d == 1 {
        '1'
    } else if d == 2 {
        '2'
    } else if d == 3 {
        '3'
    } else if d == 4 {
        '4'
    } else if d == 5 {
        '5'
    } else if d == 6 {
        '6'
    } else if d == 7 {
        '7'
    } else if d == 8 {
        '8'
    } else {
        '9'
    }
}

/// The decimal notation of `n`, without leading zeros (`0` is written `"0"`).
pub open spec fn decimal(n: nat) -> Seq<char>
    decreases n,
{
    if n < 10 {
        seq![digit_char(n)]
    } else {
        decimal(n / 10).push(digit_char(n % 10))
    }
}

fn digit_text(d: u64) -> (t: &'static str)
    requires
        d < 10,
    ensures
        t@ == seq![digit_char(d as nat)],
{
    proof {
        reveal_strlit("0");
        reveal_strlit("1");
        reveal_strlit("2");
        reveal_strlit("3");
        reveal_strlit("4");
        reveal_strlit("5");
        reveal_strlit("6");
        reveal_strlit("7");
        reveal_strlit("8");
        reveal_strlit("9");
    }
    let t = if d == 0 {
        "0"
    } else if d == 1 {
        "1"
    } else if d == 2 {
        "2"
    } else if d == 3 {
        "3"
    } else if d == 4 {
        "4"
    } else if d == 5 {
        "5"
    } else if d == 6 {
        "6"
    } else if d == 7 {
        "7"
    } else if d == 8 {
        "8"
    } else {
        "9"
    };
    assert(t@ =~= seq![digit_char(d as nat)]);
    t
}

/// Writes `n` in decimal.
pub fn decimal_string(n: u64) -> (s: String)
    ensures
        s@ == decimal(n as nat),
    decreases n,
{
    if n < 10 {
        String::from_str(digit_text(n))
    } else {
        let mut s = decimal_string(n / 10);
        s.append(digit_text(n % 10));
        s
    }
}

/// The number that the decimal digits `s` denote, read left to right.
pub open spec fn digits_value(s: Seq<char>) -> int
    decreases s.len(),
{
    if s.len() == 0 {
        0
    } else {
        digits_value(s.drop_last()) * 10 + (s.last() as int - '0' as int)
    }
}

/// `decimal(n)` is made of the characters `0` to `9`, has no leading zero,
/// and reads back as `n`.
pub proof fn lemma_decimal_reads_back(n: nat)
    ensures
        digits_value(decimal(n)) == n,
        decimal(n).len() > 0,
        forall|i: int| 0 <= i < decimal(n).len() ==> '0' <= #[trigger] decimal(n)[i] <= '9',
        decimal(n).len() > 1 ==> decimal(n)[0] != '0',
    decreases n,
{
    if n < 10 {
        lemma_digit_char(n);
        assert(decimal(n).drop_last() =~= Seq::<char>::empty());
        assert(digits_value(Seq::<char>::empty()) == 0);
        assert(digits_value(decimal(n)) == digits_value(decimal(n).drop_last()) * 10
            + (decimal(n).last() as int - '0' as int));
    } else {
        lemma_decimal_reads_back(n / 10);
        lemma_digit_char(n % 10);
        let d = decimal(n);
        let p = decimal(n / 10);
        assert(d.drop_last() =~= p);
        assert(d.last() == digit_char(n % 10));
        assert(digits_value(d) == digits_value(p) * 10 + (d.last() as int - '0' as int));
        assert(n == (n / 10) * 10 + n % 10) by (nonlinear_arith);
        assert forall|i: int| 0 <= i < d.len() implies '0' <= #[trigger] d[i] <= '9' by {
            if i < p.len() {
                assert(d[i] == p[i]);
            }
        }
        assert(d[0] == p[0]);
        if n / 10 < 10 {
            lemma_digit_char(n / 10);
            assert(p == seq![digit_char(n / 10)]);
        } else {
            lemma_decimal_reads_back(n / 10 / 10);
            assert(p.len() == decimal(n / 10 / 10).len() + 1);
        }
    }
}

proof fn lemma_digit_char(d: nat)
    requires
        d < 10,
    ensures
        digit_char(d) as int - '0' as int == d,
        '0' <= digit_char(d) <= '9',
        d > 0 ==> digit_char(d) != '0',
{
}

/// Whether `c` has the Unicode `White_Space` property, the test that
/// separates the words of a command.
pub open spec fn is_white_space(c: char) -> bool {
    let x = c as u32;
    ||| 0x09 <= x <= 0x0d
    ||| x == 0x20
    ||| x == 0x85
    ||| x == 0xa0
    ||| x == 0x1680
    ||| 0x2000 <= x <= 0x200a
    ||| x == 0x2028
    ||| x == 0x2029
    ||| x == 0x202f
    ||| x == 0x205f
    ||| x == 0x3000
}

/// The words of `s`: its maximal runs of characters that are not white
/// space, in order.
pub open spec fn split_ws(s: Seq<char>) -> Seq<Seq<char>>
    decreases s.len(),
{
    if s.len() == 0 {
        Seq::empty()
    } else {
        let init = split_ws(s.drop_last());
        let c = s.last();
        if is_white_space(c) {
            init
        } else if s.len() >= 2 && !is_white_space(s[s.len() - 2]) {
            init.drop_last().push(init.last().push(c))
        } else {
            init.push(seq![c])
        }
    }
}

/// The character contents of a sequence of strings.
pub open spec fn string_views(v: Seq<String>) -> Seq<Seq<char>> {
    v.map_values(|t: String| t@)
}

/// Whether `c` is white space.
pub fn white_space(c: char) -> (b: bool)
    ensures
        b == is_white_space(c),
{
    let x: u32 = c as u32;
    (0x09 <= x && x <= 0x0d) || x == 0x20 || x == 0x85 || x == 0xa0 || x == 0x1680 || (0x2000
        <= x && x <= 0x200a) || x == 0x2028 || x == 0x2029 || x == 0x202f || x == 0x205f || x
        == 0x3000
}

/// Splits `s` into its words, the runs of characters between white space.
pub fn split_whitespace(s: &str) -> (parts: Vec<String>)
    ensures
        string_views(parts@) == split_ws(s@),
{
    let n = s.unicode_len();
    let mut parts: Vec<String> = Vec::new();
    let mut in_word = false;
    let mut start: usize = 0;
    let mut i: usize = 0;
    assert(s@.take(0) =~= Seq::<char>::empty());
    while i < n
        invariant
            n == s@.len(),
            i <= n,
            start <= i,
            in_word ==> start < i,
            in_word ==> forall|j: int| start <= j < i ==> !is_white_space(#[trigger] s@[j]),
            in_word ==> (start == 0 || is_white_space(s@[start - 1])),
            !in_word ==> (i == 0 || is_white_space(s@[i - 1])),
            in_word ==> split_ws(s@.take(i as int)) == string_views(parts@).push(
                s@.subrange(start as int, i as int),
            ),
            !in_word ==> split_ws(s@.take(i as int)) == string_views(parts@),
        decreases n - i,
    {
        let c = s.get_char(i);
        let ghost pre = s@.take(i as int);
        let ghost post = s@.take(i + 1);
        assert(post.drop_last() =~= pre);
        assert(post.last() == c);
        let w = white_space(c);
        if w {
            if in_word {
                let word = String::from_str(s.substring_char(start, i));
                let ghost before = parts@;
                parts.push(word);
                assert(string_views(parts@) =~= string_views(before).push(
                    s@.subrange(start as int, i as int),
                ));
                in_word = false;
            }
        } else {
            if in_word {
                assert(post[post.len() - 2] == s@[i - 1]);
                assert(s@.subrange(start as int, i + 1) =~= s@.subrange(start as int, i as int).push(c));
            } else {
                assert(s@.subrange(i as int, i + 1) =~= seq![c]);
                start = i;
                in_word = true;
            }
        }
        i = i + 1;
    }
    assert(s@.take(n as int) =~= s@);
    if in_word {
        let word = String::from_str(s.substring_char(start, n));
        let ghost before = parts@;
        parts.push(word);
        assert(string_views(parts@) =~= string_views(before).push(s@.subrange(start as int, n as int)));
    }
    parts
}

/// Whether `w` is a word: not empty, and without white space.
pub open spec fn is_word(w: Seq<char>) -> bool {
    w.len() > 0 && forall|i: int| 0 <= i < w.len() ==> !is_white_space(#[trigger] w[i])
}

/// A word written right after the start or after white space adds itself
/// as the last word.
pub proof fn lemma_split_then_word(s: Seq<char>, w: Seq<char>)
    requires
        is_word(w),
        s.len() == 0 || is_white_space(s.last()),
    ensures
        split_ws(s + w) == split_ws(s).push(w),
    decreases w.len(),
{
    let t = s + w;
    if w.len() == 1 {
        assert(t.drop_last() =~= s);
        assert(t.last() == w[0]);
        assert(seq![w[0]] =~= w);
        if t.len() >= 2 {
            assert(t[t.len() - 2] == s.last());
        }
    } else {
        let w1 = w.drop_last();
        lemma_split_then_word(s, w1);
        assert(t.drop_last() =~= s + w1);
        assert(t.last() == w.last());
        assert(t[t.len() - 2] == w1.last());
        assert(w1.push(w.last()) =~= w);
    }
}

/// White space at the end adds no word.
pub proof fn lemma_split_then_space(s: Seq<char>)
    ensures
        split_ws(s.push(' ')) == split_ws(s),
{
    assert(s.push(' ').drop_last() =~= s);
    assert(is_white_space(' '));
}

/// Three words joined by single spaces split back into those words.
pub proof fn lemma_split_three_words(a: Seq<char>, b: Seq<char>, c: Seq<char>)
    requires
        is_word(a),
        is_word(b),
        is_word(c),
    ensures
        split_ws(a + seq![' '] + b + seq![' '] + c) == seq![a, b, c],
{
    let e = Seq::<char>::empty();
    lemma_split_then_word(e, a);
    assert(e + a =~= a);
    assert(split_ws(e) =~= Seq::<Seq<char>>::empty());
    lemma_split_then_space(a);
    assert(a.push(' ') =~= a + seq![' ']);
    lemma_split_then_word(a + seq![' '], b);
    let ab = a + seq![' '] + b;
    lemma_split_then_space(ab);
    assert(ab.push(' ') =~= ab + seq![' ']);
    lemma_split_then_word(ab + seq![' '], c);
    assert(split_ws(ab + seq![' '] + c) =~= seq![a, b, c]);
}

/// Two words joined by a single space split back into those words.
pub proof fn lemma_split_two_words(a: Seq<char>, b: Seq<char>)
    requires
        is_word(a),
        is_word(b),
    ensures
        split_ws(a + seq![' '] + b) == seq![a, b],
{
    let e = Seq::<char>::empty();
    lemma_split_then_word(e, a);
    assert(e + a =~= a);
    assert(split_ws(e) =~= Seq::<Seq<char>>::empty());
    lemma_split_then_space(a);
    assert(a.push(' ') =~= a + seq![' ']);
    lemma_split_then_word(a + seq![' '], b);
    assert(split_ws(a + seq![' '] + b) =~= seq![a, b]);
}

} // verus!
