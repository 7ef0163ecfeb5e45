//! Character-sequence utilities shared by the codec, the listing parsers and
//! the identity derivation: decimal rendering and parsing, separator
//! splitting, and small string predicates, each specified over `Seq<char>`.

use vstd::prelude::*;

verus! {

/// A decimal digit character.
pub open spec fn is_dec_digit(c: char) -> bool {
    '0' <= c && c <= '9'
}

/// Numeric value of a digit character; non-digits count as zero so that
/// `dec_val` is monotone over arbitrary prefixes.
pub open spec fn digit_val(c: char) -> nat {
    if is_dec_digit(c) {
        (c as u32 - '0' as u32) as nat
    } else {
        0
    }
}

/// The digit character for a value below ten.
pub open spec fn dec_char(d: nat) -> char {
    if d == 0 {
        '0'
    } else if d == 1 {
        '1'
    } else if d == 2 {
        '2'
    } else if d == 3 {
        '3'
    } else if d == 4 {
        '4'
    } else if d == 5 {
        '5'
    } else if d == 6 {
        '6'
    } else if d == 7 {
        '7'
    } else if d == 8 {
        '8'
    } else {
        '9'
    }
}

/// Decimal rendering of a natural number, most significant digit first,
/// without leading zeros (a single `'0'` for zero).
pub open spec fn dec_digits(n: nat) -> Seq<char>
    decreases n,
{
    if n < 10 {
        seq![dec_char(n)]
    } else {
        dec_digits(n / 10) + seq![dec_char(n % 10)]
    }
}

/// Value of a character sequence read as a decimal number.
pub open spec fn dec_val(s: Seq<char>) -> nat
    decreases s.len(),
{
    if s.len() == 0 {
        0
    } else {
        dec_val(s.drop_last()) * 10 + digit_val(s.last())
    }
}

/// Every character of `s` is a decimal digit.
pub open spec fn all_dec_digits(s: Seq<char>) -> bool {
    forall|i: int| 0 <= i < s.len() ==> is_dec_digit(#[trigger] s[i])
}

/// Rendering a number yields digits only.
pub proof fn lemma_dec_digits_are_digits(n: nat)
    ensures
        all_dec_digits(dec_digits(n)),
        dec_digits(n).len() >= 1,
    decreases n,
{
    if n >= 10 {
        lemma_dec_digits_are_digits(n / 10);
    }
}

/// Reading back a rendered number recovers it.
pub proof fn lemma_dec_digits_roundtrip(n: nat)
    ensures
        dec_val(dec_digits(n)) == n,
    decreases n,
{
    if n < 10 {
        let s = seq![dec_char(n)];
        assert(s.len() == 1);
        assert(s.last() == dec_char(n));
        assert(s.drop_last() =~= Seq::<char>::empty());
        assert(dec_val(s.drop_last()) == 0);
        assert(dec_val(s) == dec_val(s.drop_last()) * 10 + digit_val(s.last()));
        assert(digit_val(dec_char(n)) == n);
    } else {
        lemma_dec_digits_roundtrip(n / 10);
        let s = dec_digits(n / 10) + seq![dec_char(n % 10)];
        assert(s.drop_last() =~= dec_digits(n / 10));
        assert(s.last() == dec_char((n % 10) as nat));
    }
}

/// The value of a prefix never exceeds the value of the whole sequence.
pub proof fn lemma_dec_val_prefix_le(s: Seq<char>, i: int)
    requires
        0 <= i <= s.len(),
    ensures
        dec_val(s.subrange(0, i)) <= dec_val(s),
    decreases s.len() - i,
{
    if i == s.len() {
        assert(s.subrange(0, i) =~= s);
    } else {
        let p = s.subrange(0, i);
        let q = s.subrange(0, i + 1);
        assert(q.drop_last() =~= p);
        assert(dec_val(q) == dec_val(p) * 10 + digit_val(q.last()));
        lemma_dec_val_prefix_le(s, i + 1);
    }
}

/// The string for one digit value.
fn digit_str(d: u32) -> (r: &'static str)
    requires
        d < 10,
    ensures
        r@ =~= seq![dec_char(d as nat)],
{
    proof {
        reveal_strlit("0");
        reveal_strlit("1");
        reveal_strlit("2");
        reveal_strlit("3");
        reveal_strlit("4");
        reveal_strlit("5");
        reveal_strlit("6");
        reveal_strlit("7");
        reveal_strlit("8");
        reveal_strlit("9");
    }
    if d == 0 {
        "0"
    } else if d == 1 {
        "1"
    } else if d == 2 {
        "2"
    } else if d == 3 {
        "3"
    } else if d == 4 {
        "4"
    } else if d == 5 {
        "5"
    } else if d == 6 {
        "6"
    } else if d == 7 {
        "7"
    } else if d == 8 {
        "8"
    } else {
        "9"
    }
}

/// Renders `n` in decimal.
pub fn u32_to_string(n: u32) -> (r: String)
    ensures
        r@ == dec_digits(n as nat),
    decreases n,
{
    if n < 10 {
        digit_str(n).to_owned()
    } else {
        let prefix = u32_to_string(n / 10);
        let r = prefix.concat(digit_str(n % 10));
        proof {
            assert(r@ =~= dec_digits((n / 10) as nat) + seq![dec_char((n % 10) as nat)]);
        }
        r
    }
}

/// Parses a decimal number: `Some` exactly on non-empty all-digit strings
/// whose value fits in a `u32`.
pub fn parse_u32(s: &str) -> (r: Option<u32>)
    ensures
        r is Some <==> (s@.len() > 0 && all_dec_digits(s@) && dec_val(s@) <= u32::MAX),
        r is Some ==> r.unwrap() as nat == dec_val(s@),
{
    let n = s.unicode_len();
    if n == 0 {
        return None;
    }
    let mut i: usize = 0;
    let mut acc: u64 = 0;
    while i < n
        invariant
            0 < n == s@.len(),
            0 <= i <= n,
            acc <= u32::MAX,
            all_dec_digits(s@.subrange(0, i as int)),
            acc as nat == dec_val(s@.subrange(0, i as int)),
        decreases n - i,
    {
        let c = s.get_char(i);
        if c < '0' || c > '9' {
            assert(!is_dec_digit(s@[i as int]));
            return None;
        }
        let d: u64 = c as u64 - '0' as u64;
        acc = acc * 10 + d;
        proof {
            let p = s@.subrange(0, i as int);
            let q = s@.subrange(0, i + 1);
            assert(q.drop_last() =~= p);
            assert(q.last() == s@[i as int]);
            assert(digit_val(s@[i as int]) == d as nat);
        }
        i = i + 1;
        if acc > u32::MAX as u64 {
            proof {
                lemma_dec_val_prefix_le(s@, i as int);
            }
            return None;
        }
    }
    proof {
        assert(s@.subrange(0, n as int) =~= s@);
    }
    Some(acc as u32)
}

/// `s` holds no occurrence of `c`.
pub open spec fn free_of(s: Seq<char>, c: char) -> bool {
    forall|i: int| 0 <= i < s.len() ==> #[trigger] s[i] != c
}

/// Splitting `s` at every occurrence of `sep`.  The result always has one
/// part more than there are separators; an empty input gives one empty part.
pub open spec fn split_seq(s: Seq<char>, sep: char) -> Seq<Seq<char>>
    decreases s.len(),
{
    if s.len() == 0 {
        seq![Seq::<char>::empty()]
    } else if s[0] == sep {
        seq![Seq::<char>::empty()] + split_seq(s.drop_first(), sep)
    } else {
        let rest = split_seq(s.drop_first(), sep);
        seq![seq![s[0]] + rest[0]] + rest.drop_first()
    }
}

/// A split is never empty.
pub proof fn lemma_split_seq_len(s: Seq<char>, sep: char)
    ensures
        split_seq(s, sep).len() >= 1,
    decreases s.len(),
{
    if s.len() > 0 {
        lemma_split_seq_len(s.drop_first(), sep);
    }
}

/// A separator-free sequence splits into itself alone.
pub proof fn lemma_split_seq_no_sep(s: Seq<char>, sep: char)
    requires
        free_of(s, sep),
    ensures
        split_seq(s, sep) =~= seq![s],
    decreases s.len(),
{
    if s.len() == 0 {
        assert(s =~= Seq::<char>::empty());
    } else {
        assert(free_of(s.drop_first(), sep)) by {
            assert(forall|i: int|
                0 <= i < s.drop_first().len() ==> #[trigger] s.drop_first()[i] == s[i + 1]);
        }
        lemma_split_seq_no_sep(s.drop_first(), sep);
        assert(seq![s[0]] + s.drop_first() =~= s);
        assert(split_seq(s, sep) =~= seq![s]);
    }
}

/// Splitting distributes over concatenation at a separator.
pub proof fn lemma_split_seq_concat(a: Seq<char>, b: Seq<char>, sep: char)
    ensures
        split_seq(a + seq![sep] + b, sep) =~= split_seq(a, sep) + split_seq(b, sep),
    decreases a.len(),
{
    let whole = a + seq![sep] + b;
    if a.len() == 0 {
        assert(whole[0] == sep);
        assert(whole.drop_first() =~= b);
        assert(split_seq(whole, sep) =~= seq![Seq::<char>::empty()] + split_seq(b, sep));
        assert(split_seq(a, sep) =~= seq![Seq::<char>::empty()]);
    } else {
        assert(whole[0] == a[0]);
        assert(whole.len() > 0);
        assert(whole.drop_first() =~= a.drop_first() + seq![sep] + b);
        lemma_split_seq_concat(a.drop_first(), b, sep);
        let rest = split_seq(whole.drop_first(), sep);
        let ra = split_seq(a.drop_first(), sep);
        lemma_split_seq_len(a.drop_first(), sep);
        assert(rest =~= ra + split_seq(b, sep));
        assert(rest[0] == ra[0]);
        if a[0] == sep {
            assert(split_seq(whole, sep) =~= seq![Seq::<char>::empty()] + rest);
            assert(split_seq(a, sep) =~= seq![Seq::<char>::empty()] + ra);
        } else {
            assert(rest.drop_first() =~= ra.drop_first() + split_seq(b, sep));
            assert(split_seq(whole, sep) =~= seq![seq![a[0]] + rest[0]] + rest.drop_first());
            assert(split_seq(a, sep) =~= seq![seq![a[0]] + ra[0]] + ra.drop_first());
            assert(split_seq(whole, sep) =~= split_seq(a, sep) + split_seq(b, sep));
        }
    }
}

/// The views of a vector of strings.
pub open spec fn views_of(v: Seq<String>) -> Seq<Seq<char>> {
    v.map_values(|p: String| p@)
}

/// Splits `s` at every occurrence of `sep`.
pub fn split_str(s: &str, sep: char) -> (r: Vec<String>)
    ensures
        views_of(r@) == split_seq(s@, sep),
        r@.len() >= 1,
{
    let n = s.unicode_len();
    let mut parts: Vec<String> = Vec::new();
    proof {
        assert(s@.subrange(0, n as int) =~= s@);
        assert(views_of(parts@) =~= Seq::<Seq<char>>::empty());
        assert(views_of(parts@) + split_seq(s@, sep) =~= split_seq(s@, sep));
    }
    let mut start: usize = 0;
    let mut i: usize = 0;
    while i < n
        invariant
            n == s@.len(),
            0 <= start <= i <= n,
            free_of(s@.subrange(start as int, i as int), sep),
            split_seq(s@, sep) =~= views_of(parts@) + split_seq(
                s@.subrange(start as int, n as int),
                sep,
            ),
        decreases n - i,
    {
        let c = s.get_char(i);
        if c == sep {
            let field = s.substring_char(start, i).to_owned();
            proof {
                let tail = s@.subrange(start as int, n as int);
                assert(tail =~= field@ + seq![sep] + s@.subrange(i + 1, n as int));
                lemma_split_seq_concat(field@, s@.subrange(i + 1, n as int), sep);
                lemma_split_seq_no_sep(field@, sep);
                assert(views_of(parts@.push(field)) =~= views_of(parts@) + seq![field@]);
            }
            parts.push(field);
            start = i + 1;
        }
        i = i + 1;
        proof {
            assert(free_of(s@.subrange(start as int, i as int), sep));
        }
    }
    let last = s.substring_char(start, n).to_owned();
    proof {
        lemma_split_seq_no_sep(last@, sep);
        assert(views_of(parts@.push(last)) =~= views_of(parts@) + seq![last@]);
    }
    parts.push(last);
    proof {
        lemma_split_seq_len(s@, sep);
    }
    parts
}

/// Character-wise string equality.
pub fn str_eq(a: &str, b: &str) -> (r: bool)
    ensures
        r == (a@ == b@),
{
    let na = a.unicode_len();
    let nb = b.unicode_len();
    if na != nb {
        return false;
    }
    let mut i: usize = 0;
    while i < na
        invariant
            na == a@.len() == b@.len(),
            0 <= i <= na,
            forall|j: int| 0 <= j < i ==> a@[j] == b@[j],
        decreases na - i,
    {
        if a.get_char(i) != b.get_char(i) {
            return false;
        }
        i = i + 1;
    }
    proof {
        assert(a@ =~= b@);
    }
    true
}

/// `p` is a prefix of `s`.
pub open spec fn has_prefix(s: Seq<char>, p: Seq<char>) -> bool {
    p.len() <= s.len() && s.subrange(0, p.len() as int) == p
}

/// Prefix test.
pub fn starts_with_str(s: &str, p: &str) -> (r: bool)
    ensures
        r == has_prefix(s@, p@),
{
    let np = p.unicode_len();
    if s.unicode_len() < np {
        return false;
    }
    str_eq(s.substring_char(0, np), p)
}

/// Whether `s` contains the character `c`.
pub fn contains_char(s: &str, c: char) -> (r: bool)
    ensures
        r == !free_of(s@, c),
{
    let n = s.unicode_len();
    let mut i: usize = 0;
    while i < n
        invariant
            n == s@.len(),
            0 <= i <= n,
            free_of(s@.subrange(0, i as int), c),
        decreases n - i,
    {
        if s.get_char(i) == c {
            assert(s@[i as int] == c);
            return true;
        }
        i = i + 1;
        proof {
            assert(free_of(s@.subrange(0, i as int), c));
        }
    }
    proof {
        assert(s@.subrange(0, n as int) =~= s@);
    }
    false
}

} // verus!
