//! Small verified building blocks for scanning ASCII text: finding a
//! separator, splitting on it, and reading and writing decimal numbers.
use vstd::prelude::*;
use vstd::string::*;
use vstd::utf8::is_ascii_chars;

verus! {

/// Whether `c` is an ASCII decimal digit.
pub open spec fn is_digit(c: char) -> bool {
    '0' <= c <= '9'
}

/// Whether `c` is an ASCII letter.
pub open spec fn is_letter(c: char) -> bool {
    ('a' <= c <= 'z') || ('A' <= c <= 'Z')
}

/// The number a decimal digit stands for.
pub open spec fn digit_value(c: char) -> nat {
    (c as u32 - 0x30) as nat
}

/// The decimal digit that stands for `d`, for `d` below ten.
pub open spec fn digit_char(d: nat) -> char {
    ((d + 0x30) as u8) as char
}

/// Index of the first occurrence of `c` in `s`, or `s.len()` if there is none.
pub open spec fn find<T>(s: Seq<T>, c: T) -> nat
    decreases s.len(),
{
    if s.len() == 0 {
        0
    } else if s[0] == c {
        0
    } else {
        1 + find(s.skip(1), c)
    }
}

/// The pieces of `s` between occurrences of the separator `c`. A text with
/// `k` separators has `k + 1` pieces, some of which may be empty.
pub open spec fn split(s: Seq<char>, c: char) -> Seq<Seq<char>>
    decreases s.len(),
{
    let i = find(s, c);
    if i >= s.len() {
        seq![s]
    } else {
        seq![s.take(i as int)] + split(s.skip(i as int + 1), c)
    }
}

/// The pieces joined again with the separator `c` between neighbours.
pub open spec fn join(pieces: Seq<Seq<char>>, c: char) -> Seq<char>
    decreases pieces.len(),
{
    if pieces.len() == 0 {
        Seq::empty()
    } else if pieces.len() == 1 {
        pieces[0]
    } else {
        pieces[0] + seq![c] + join(pieces.skip(1), c)
    }
}

/// The value of a sequence of decimal digits, most significant first.
pub open spec fn dec_value(s: Seq<char>) -> nat
    decreases s.len(),
{
    if s.len() == 0 {
        0
    } else {
        dec_value(s.drop_last()) * 10 + digit_value(s.last())
    }
}

/// The shortest decimal representation of `n`.
pub open spec fn decimal(n: nat) -> Seq<char>
    decreases n,
{
    if n < 10 {
        seq![digit_char(n)]
    } else {
        decimal(n / 10).push(digit_char(n % 10))
    }
}

/// Ten to the power `k`.
pub open spec fn pow10(k: nat) -> nat
    decreases k,
{
    if k == 0 {
        1
    } else {
        10 * pow10((k - 1) as nat)
    }
}

/// A decimal number written the shortest way: digits only, at least one,
/// and no leading zero unless the number is the single digit zero.
pub open spec fn is_canonical_number(s: Seq<char>) -> bool {
    &&& s.len() > 0
    &&& forall|i: int| 0 <= i < s.len() ==> is_digit(#[trigger] s[i])
    &&& (s.len() > 1 ==> s[0] != '0')
}

/// `find` returns a position inside the text or its length; the separator
/// stands at that position and nowhere before it.
pub proof fn lemma_find_bounds<T>(s: Seq<T>, c: T)
    ensures
        find(s, c) <= s.len(),
        find(s, c) < s.len() ==> s[find(s, c) as int] == c,
        forall|j: int| 0 <= j < find(s, c) ==> s[j] != c,
    decreases s.len(),
{
    if s.len() == 0 {
    } else if s[0] == c {
    } else {
        let t = s.skip(1);
        lemma_find_bounds(t, c);
        assert forall|j: int| 0 <= j < find(s, c) implies s[j] != c by {
            if j > 0 {
                assert(t[j - 1] == s[j]);
            }
        }
    }
}

/// A position that holds the separator (or the end of the text) and has no
/// separator before it is the one `find` returns.
pub proof fn lemma_find_first<T>(s: Seq<T>, c: T, i: int)
    requires
        0 <= i <= s.len(),
        i < s.len() ==> s[i] == c,
        forall|j: int| 0 <= j < i ==> s[j] != c,
    ensures
        find(s, c) == i,
    decreases s.len(),
{
    if s.len() == 0 {
    } else if i == 0 {
    } else {
        let t = s.skip(1);
        assert(s[0] != c);
        assert forall|j: int| 0 <= j < i - 1 implies t[j] != c by {
            assert(t[j] == s[j + 1]);
        }
        lemma_find_first(t, c, i - 1);
    }
}

/// Length of an ASCII text in characters.
pub(crate) fn ascii_len(text: &str) -> (n: usize)
    requires
        text.is_ascii(),
    ensures
        n == text@.len(),
{
    proof {
        vstd::utf8::is_ascii_chars_encode_utf8(text@);
    }
    text.as_bytes().len()
}

/// The character at position `i` of an ASCII text.
pub(crate) fn char_at(text: &str, i: usize) -> (c: char)
    requires
        text.is_ascii(),
        i < text@.len(),
    ensures
        c == text@[i as int],
{
    let b: u8 = text.get_ascii(i);
    b as char
}

/// Position of the first `c` in `text`, or the length of `text`.
pub(crate) fn find_char(text: &str, c: char) -> (i: usize)
    requires
        text.is_ascii(),
    ensures
        i == find(text@, c),
        i <= text@.len(),
{
    let n: usize = ascii_len(text);
    let mut i: usize = 0;
    while i < n
        invariant
            text.is_ascii(),
            n == text@.len(),
            i <= n,
            forall|j: int| 0 <= j < i ==> text@[j] != c,
        decreases n - i,
    {
        if char_at(text, i) == c {
            proof {
                lemma_find_first(text@, c, i as int);
            }
            return i;
        }
        i += 1;
    }
    proof {
        lemma_find_first(text@, c, i as int);
    }
    i
}

/// The views of a vector of strings, in order.
pub open spec fn views(v: Seq<String>) -> Seq<Seq<char>> {
    v.map_values(|s: String| s@)
}

/// Splits an ASCII text on every occurrence of `c`.
pub(crate) fn split_text(text: &str, c: char) -> (pieces: Vec<String>)
    requires
        text.is_ascii(),
    ensures
        views(pieces@) == split(text@, c),
        forall|k: int| 0 <= k < pieces@.len() ==> is_ascii_chars(#[trigger] pieces@[k]@),
{
    let mut pieces: Vec<String> = Vec::new();
    let mut rest: &str = text;
    loop
        invariant
            rest.is_ascii(),
            split(text@, c) == views(pieces@) + split(rest@, c),
            forall|k: int| 0 <= k < pieces@.len() ==> is_ascii_chars(#[trigger] pieces@[k]@),
        decreases rest@.len(),
    {
        let n: usize = ascii_len(rest);
        let i: usize = find_char(rest, c);
        if i >= n {
            let ghost before = pieces@;
            pieces.push(rest.to_owned());
            proof {
                assert(views(pieces@) =~= views(before) + seq![rest@]);
            }
            return pieces;
        }
        let piece: &str = rest.substring_ascii(0, i);
        let tail: &str = rest.substring_ascii(i + 1, n);
        let ghost before = pieces@;
        pieces.push(piece.to_owned());
        proof {
            assert(rest@.take(i as int) =~= piece@);
            assert(rest@.skip(i + 1) =~= tail@);
            assert(views(pieces@) =~= views(before) + seq![piece@]);
            assert(split(rest@, c) == seq![piece@] + split(tail@, c));
            assert(views(pieces@) + split(tail@, c) =~= views(before) + (seq![piece@] + split(
                tail@,
                c,
            )));
        }
        rest = tail;
    }
}

/// The first ten powers of ten.
pub proof fn lemma_pow10_values()
    ensures
        pow10(0) == 1,
        pow10(1) == 10,
        pow10(2) == 100,
        pow10(3) == 1_000,
        pow10(4) == 10_000,
        pow10(5) == 100_000,
        pow10(6) == 1_000_000,
        pow10(7) == 10_000_000,
        pow10(8) == 100_000_000,
        pow10(9) == 1_000_000_000,
{
    reveal_with_fuel(pow10, 10);
}

/// Powers of ten grow with the exponent.
pub proof fn lemma_pow10_monotonic(a: nat, b: nat)
    requires
        a <= b,
    ensures
        pow10(a) <= pow10(b),
        pow10(a) >= 1,
    decreases b,
{
    if a < b {
        lemma_pow10_monotonic(a, (b - 1) as nat);
    } else if a > 0 {
        lemma_pow10_monotonic((a - 1) as nat, (a - 1) as nat);
    }
}

/// A number of `k` digits is below ten to the power `k`.
pub proof fn lemma_dec_value_bound(s: Seq<char>)
    requires
        forall|i: int| 0 <= i < s.len() ==> is_digit(#[trigger] s[i]),
    ensures
        dec_value(s) < pow10(s.len()),
    decreases s.len(),
{
    if s.len() > 0 {
        let t = s.drop_last();
        assert forall|i: int| 0 <= i < t.len() implies is_digit(#[trigger] t[i]) by {
            assert(t[i] == s[i]);
        }
        lemma_dec_value_bound(t);
        assert(is_digit(s[s.len() - 1]));
    }
}

/// Writing a number down and reading it again gives the number back, and
/// what is written is the shortest form.
pub proof fn lemma_decimal_round_trip(n: nat)
    ensures
        dec_value(decimal(n)) == n,
        is_canonical_number(decimal(n)),
        n > 0 ==> decimal(n)[0] != '0',
    decreases n,
{
    if n < 10 {
        let d = decimal(n);
        assert(d.drop_last() =~= Seq::<char>::empty());
        assert(dec_value(d.drop_last()) == 0);
    } else {
        let h = decimal(n / 10);
        lemma_decimal_round_trip(n / 10);
        let d = decimal(n);
        assert(d.drop_last() =~= h);
        assert(d.last() == digit_char(n % 10));
        assert(d[0] == h[0]);
        assert forall|i: int| 0 <= i < d.len() implies is_digit(#[trigger] d[i]) by {
            if i < h.len() {
                assert(d[i] == h[i]);
            }
        }
    }
}

/// A number below ten to the power `k` is written with at most `k` digits.
pub proof fn lemma_decimal_len(n: nat, k: nat)
    requires
        k >= 1,
        n < pow10(k),
    ensures
        decimal(n).len() <= k,
    decreases n,
{
    if n >= 10 {
        if k == 1 {
            lemma_pow10_values();
        } else {
            lemma_decimal_len(n / 10, (k - 1) as nat);
        }
    }
}

/// Reads a decimal number of at most `max_len` digits, written the shortest
/// way. Anything else gives `None`.
pub(crate) fn parse_number(text: &str, max_len: usize) -> (r: Option<u32>)
    requires
        text.is_ascii(),
        max_len <= 9,
    ensures
        r is Some <==> is_canonical_number(text@) && text@.len() <= max_len,
        r is Some ==> r.unwrap() == dec_value(text@),
{
    let n: usize = ascii_len(text);
    if n == 0 || n > max_len {
        return None;
    }
    if n > 1 && char_at(text, 0) == '0' {
        return None;
    }
    let mut value: u32 = 0;
    let mut i: usize = 0;
    while i < n
        invariant
            text.is_ascii(),
            n == text@.len(),
            i <= n <= 9,
            forall|j: int| 0 <= j < i ==> is_digit(#[trigger] text@[j]),
            value == dec_value(text@.take(i as int)),
            value < pow10(i as nat),
        decreases n - i,
    {
        let c: char = char_at(text, i);
        if !('0' <= c && c <= '9') {
            return None;
        }
        proof {
            lemma_pow10_monotonic(i as nat, 8);
            lemma_pow10_values();
            assert(text@.take(i + 1).drop_last() =~= text@.take(i as int));
        }
        value = value * 10 + (c as u32 - 0x30);
        i += 1;
    }
    proof {
        assert(text@.take(n as int) =~= text@);
    }
    Some(value)
}

/// The one-character text of a decimal digit.
pub(crate) fn digit_str(d: u32) -> (r: &'static str)
    requires
        d < 10,
    ensures
        r@ == seq![digit_char(d as nat)],
{
    proof {
        reveal_strlit("0");
        reveal_strlit("1");
        reveal_strlit("2");
        reveal_strlit("3");
        reveal_strlit("4");
        reveal_strlit("5");
        reveal_strlit("6");
        reveal_strlit("7");
        reveal_strlit("8");
        reveal_strlit("9");
    }
    let r: &'static str = match d {
        0 => "0",
        1 => "1",
        2 => "2",
        3 => "3",
        4 => "4",
        5 => "5",
        6 => "6",
        7 => "7",
        8 => "8",
        _ => "9",
    };
    assert(r@ =~= seq![digit_char(d as nat)]);
    r
}

/// Appends the shortest decimal form of `n` to `out`.
pub(crate) fn push_decimal(out: &mut String, n: u32)
    ensures
        final(out)@ == old(out)@ + decimal(n as nat),
    decreases n,
{
    if n >= 10 {
        push_decimal(out, n / 10);
    }
    out.append(digit_str(n % 10));
    proof {
        if n >= 10 {
            assert(out@ =~= old(out)@ + decimal(n as nat));
        } else {
            assert(out@ =~= old(out)@ + decimal(n as nat));
        }
    }
}

/// Whether no character of `s` is `c`.
pub open spec fn free_of(s: Seq<char>, c: char) -> bool {
    forall|i: int| 0 <= i < s.len() ==> #[trigger] s[i] != c
}

/// Splitting what was joined gives the pieces back, as long as no piece
/// holds the separator.
pub proof fn lemma_split_join(pieces: Seq<Seq<char>>, c: char)
    requires
        pieces.len() >= 1,
        forall|k: int| 0 <= k < pieces.len() ==> free_of(#[trigger] pieces[k], c),
    ensures
        split(join(pieces, c), c) == pieces,
    decreases pieces.len(),
{
    let first = pieces[0];
    assert(free_of(first, c));
    if pieces.len() == 1 {
        lemma_find_first(first, c, first.len() as int);
        assert(split(first, c) =~= pieces);
    } else {
        let rest = pieces.skip(1);
        let joined = join(pieces, c);
        assert(joined == first + seq![c] + join(rest, c));
        assert forall|j: int| 0 <= j < first.len() implies joined[j] != c by {
            assert(joined[j] == first[j]);
        }
        lemma_find_first(joined, c, first.len() as int);
        assert(joined.take(first.len() as int) =~= first);
        assert(joined.skip(first.len() as int + 1) =~= join(rest, c));
        assert forall|k: int| 0 <= k < rest.len() implies free_of(#[trigger] rest[k], c) by {
            assert(rest[k] == pieces[k + 1]);
        }
        lemma_split_join(rest, c);
        assert(seq![first] + rest =~= pieces);
    }
}

/// A character that is neither the separator nor in any piece is not in the
/// joined text.
pub proof fn lemma_join_free_of(pieces: Seq<Seq<char>>, c: char, x: char)
    requires
        x != c,
        forall|k: int| 0 <= k < pieces.len() ==> free_of(#[trigger] pieces[k], x),
    ensures
        free_of(join(pieces, c), x),
    decreases pieces.len(),
{
    if pieces.len() == 0 {
    } else if pieces.len() == 1 {
        assert(free_of(pieces[0], x));
    } else {
        let rest = pieces.skip(1);
        assert forall|k: int| 0 <= k < rest.len() implies free_of(#[trigger] rest[k], x) by {
            assert(rest[k] == pieces[k + 1]);
        }
        lemma_join_free_of(rest, c, x);
        assert(free_of(pieces[0], x));
        let joined = join(pieces, c);
        let first = pieces[0];
        assert forall|i: int| 0 <= i < joined.len() implies #[trigger] joined[i] != x by {
            if i < first.len() {
                assert(joined[i] == first[i]);
            } else if i == first.len() {
                assert(joined[i] == c);
            } else {
                assert(joined[i] == join(rest, c)[i - first.len() - 1]);
            }
        }
    }
}

/// Every character of a text is the separator or belongs to one of the
/// pieces the text splits into.
pub proof fn lemma_split_covers(s: Seq<char>, c: char, i: int)
    requires
        0 <= i < s.len(),
        s[i] != c,
    ensures
        exists|k: int, j: int|
            0 <= k < split(s, c).len() && 0 <= j < split(s, c)[k].len() && #[trigger] split(
                s,
                c,
            )[k][j] == s[i],
    decreases s.len(),
{
    let f = find(s, c);
    lemma_find_bounds(s, c);
    if f >= s.len() {
        assert(split(s, c)[0][i] == s[i]);
    } else if i < f {
        assert(split(s, c)[0] == s.take(f as int));
        assert(split(s, c)[0][i] == s[i]);
    } else {
        let t = s.skip(f as int + 1);
        assert(t[i - f - 1] == s[i]);
        lemma_split_covers(t, c, i - f - 1);
        let (k, j) = choose|k: int, j: int|
            0 <= k < split(t, c).len() && 0 <= j < split(t, c)[k].len() && #[trigger] split(
                t,
                c,
            )[k][j] == t[i - f - 1];
        assert(split(s, c)[k + 1] == split(t, c)[k]);
        assert(split(s, c)[k + 1][j] == s[i]);
    }
}

/// Joining one more piece appends the separator and the piece, except to
/// nothing.
pub proof fn lemma_join_push(pieces: Seq<Seq<char>>, piece: Seq<char>, c: char)
    ensures
        join(pieces.push(piece), c) == if pieces.len() == 0 {
            piece
        } else {
            join(pieces, c) + seq![c] + piece
        },
    decreases pieces.len(),
{
    let all = pieces.push(piece);
    if pieces.len() >= 1 {
        let rest = pieces.skip(1);
        assert(all.skip(1) =~= rest.push(piece));
        lemma_join_push(rest, piece, c);
        assert(all[0] == pieces[0]);
        if pieces.len() == 1 {
            assert(join(all, c) =~= join(pieces, c) + seq![c] + piece);
        } else {
            assert(join(all, c) =~= join(pieces, c) + seq![c] + piece);
        }
    }
}

} // verus!
