//! Character and decimal helpers shared by the protocol modules.

use vstd::prelude::*;

verus! {

/// Character for one decimal digit value.
pub open spec fn digit_char(d: nat) -> char {
    (48 + d) as char
}

/// Canonical decimal representation of a natural number, without sign or leading zeros.
pub open spec fn decimal_chars(n: nat) -> Seq<char>
    decreases n,
{
    if n < 10 {
        seq![digit_char(n)]
    } else {
        decimal_chars(n / 10).push(digit_char(n % 10))
    }
}

/// Appends one character to a string (std `String::push`).
#[verifier::external_body]
pub(crate) fn push_char(s: &mut String, c: char)
    ensures
        final(s)@ == old(s)@.push(c),
{
    s.push(c);
}

/// Collects the characters of a string slice.
pub fn chars_of(s: &str) -> (v: Vec<char>)
    ensures
        v@ == s@,
{
    broadcast use vstd::string::axiom_spec_iter;
    let mut v: Vec<char> = Vec::new();
    for c in it: s.chars()
        invariant
            v@ == it.seq().take(it.index() as int),
            it.seq() == s@,
    {
        v.push(c);
    }
    v
}

/// Builds a string from a character slice.
pub fn string_from_chars(chars: &[char]) -> (s: String)
    ensures
        s@ == chars@,
{
    let mut s = String::new();
    let mut i: usize = 0;
    while i < chars.len()
        invariant
            i <= chars@.len(),
            s@ == chars@.take(i as int),
        decreases chars@.len() - i,
    {
        push_char(&mut s, chars[i]);
        i = i + 1;
        assert(s@ == chars@.take(i as int));
    }
    assert(chars@.take(chars@.len() as int) == chars@);
    s
}

/// Decimal digits of an unsigned integer.
pub fn decimal_string(n: u64) -> (s: String)
    ensures
        s@ == decimal_chars(n as nat),
{
    // `digits` holds the low-order digits, least significant first.
    let mut digits: Vec<char> = Vec::new();
    let mut rest: u64 = n;
    while rest >= 10
        invariant
            rest <= n,
            decimal_chars(n as nat) == decimal_chars(rest as nat) + digits@.reverse(),
        decreases rest,
    {
        let c = (48u8 + (rest % 10) as u8) as char;
        let ghost old_digits = digits@;
        digits.push(c);
        assert(digits@.reverse() == seq![c] + old_digits.reverse()) by {
            assert(digits@.reverse() =~= seq![c] + old_digits.reverse());
        }
        assert(decimal_chars(rest as nat) == decimal_chars((rest / 10) as nat).push(c));
        rest = rest / 10;
        assert(decimal_chars(n as nat) == decimal_chars(rest as nat) + digits@.reverse()) by {
            assert(decimal_chars(rest as nat).push(c) + old_digits.reverse()
                =~= decimal_chars(rest as nat) + (seq![c] + old_digits.reverse()));
        }
    }
    let c = (48u8 + rest as u8) as char;
    let ghost old_digits = digits@;
    digits.push(c);
    assert(digits@.reverse() == decimal_chars(n as nat)) by {
        assert(digits@.reverse() =~= seq![c] + old_digits.reverse());
    }
    let mut s = String::new();
    let mut i: usize = digits.len();
    while i > 0
        invariant
            i <= digits@.len(),
            s@ == digits@.subrange(i as int, digits@.len() as int).reverse(),
        decreases i,
    {
        let ghost before = s@;
        i = i - 1;
        push_char(&mut s, digits[i]);
        assert(s@ =~= digits@.subrange(i as int, digits@.len() as int).reverse());
    }
    assert(digits@.subrange(0, digits@.len() as int) =~= digits@);
    s
}

/// ASCII decimal digit.
pub open spec fn is_digit_byte(b: u8) -> bool {
    48 <= b <= 57
}

pub open spec fn all_digits(s: Seq<u8>) -> bool {
    forall|i: int| 0 <= i < s.len() ==> is_digit_byte(#[trigger] s[i])
}

/// Value of a run of ASCII decimal digits, most significant first.
pub open spec fn digits_value(s: Seq<u8>) -> nat
    decreases s.len(),
{
    if s.len() == 0 {
        0
    } else {
        digits_value(s.drop_last()) * 10 + (s.last() - 48) as nat
    }
}

/// The digits of an unsigned decimal field: an optional leading `+` is not part of them.
pub open spec fn unsigned_digits(s: Seq<u8>) -> Seq<u8> {
    if s.len() > 0 && s[0] == 43 {
        s.drop_first()
    } else {
        s
    }
}

/// Whether `s` is accepted as an unsigned integer no larger than `max` by std's `FromStr`
/// for unsigned integers: an optional `+` followed by one or more ASCII digits.
pub open spec fn unsigned_accepts(s: Seq<u8>, max: nat) -> bool {
    let body = unsigned_digits(s);
    &&& body.len() > 0
    &&& all_digits(body)
    &&& digits_value(body) <= max
}

/// The value of an accepted unsigned decimal field.
pub open spec fn unsigned_value(s: Seq<u8>) -> nat {
    digits_value(unsigned_digits(s))
}

proof fn lemma_digits_value_prefix(s: Seq<u8>, k: int)
    requires
        0 <= k <= s.len(),
        all_digits(s),
    ensures
        digits_value(s.take(k)) <= digits_value(s),
    decreases s.len(),
{
    if k < s.len() {
        let t = s.drop_last();
        assert(all_digits(t)) by {
            assert forall|i: int| 0 <= i < t.len() implies is_digit_byte(#[trigger] t[i]) by {
                assert(t[i] == s[i]);
            }
        }
        lemma_digits_value_prefix(t, k);
        assert(t.take(k) =~= s.take(k));
    } else {
        assert(s.take(k) =~= s);
    }
}

/// Parses `input[start..end]` as an unsigned decimal integer no larger than `max`, with the
/// acceptance rule of std's `FromStr` for unsigned integers.
pub fn parse_unsigned(input: &[u8], start: usize, end: usize, max: u64) -> (r: Option<u64>)
    requires
        start <= end <= input@.len(),
    ensures
        ({
            let field = input@.subrange(start as int, end as int);
            match r {
                Some(v) => unsigned_accepts(field, max as nat) && v == unsigned_value(field),
                None => !unsigned_accepts(field, max as nat),
            }
        }),
{
    let ghost field = input@.subrange(start as int, end as int);
    let mut i = start;
    if i < end && input[i] == 43u8 {
        i = i + 1;
    }
    let body_start = i;
    let ghost body = input@.subrange(body_start as int, end as int);
    assert(body =~= unsigned_digits(field));
    if body_start == end {
        return None;
    }
    let mut value: u64 = 0;
    while i < end
        invariant
            body_start <= i <= end <= input@.len(),
            body == input@.subrange(body_start as int, end as int),
            body == unsigned_digits(field),
            field == input@.subrange(start as int, end as int),
            all_digits(input@.subrange(body_start as int, i as int)),
            value as nat == digits_value(input@.subrange(body_start as int, i as int)),
            value <= max,
        decreases end - i,
    {
        let b = input[i];
        if b < 48u8 || b > 57u8 {
            assert(body[i - body_start] == b);
            assert(!is_digit_byte(body[i - body_start]));
            return None;
        }
        let next: u128 = (value as u128) * 10 + (b - 48u8) as u128;
        let ghost prefix = input@.subrange(body_start as int, i + 1);
        assert(prefix.drop_last() =~= input@.subrange(body_start as int, i as int));
        assert(all_digits(prefix)) by {
            assert forall|j: int| 0 <= j < prefix.len() implies is_digit_byte(#[trigger] prefix[j]) by {
                if j < prefix.len() - 1 {
                    assert(prefix[j] == prefix.drop_last()[j]);
                }
            }
        }
        assert(next == digits_value(prefix));
        if next > max as u128 {
            proof {
                let k = prefix.len() as int;
                if all_digits(body) {
                    assert(body.take(k) =~= prefix);
                    lemma_digits_value_prefix(body, k);
                }
            }
            return None;
        }
        value = next as u64;
        i = i + 1;
    }
    Some(value)
}

/// Whether two string slices hold the same characters.
pub fn text_eq(a: &str, b: &str) -> (r: bool)
    ensures
        r == (a@ == b@),
{
    let x = chars_of(a);
    let y = chars_of(b);
    if x.len() != y.len() {
        return false;
    }
    let mut i: usize = 0;
    while i < x.len()
        invariant
            x@ == a@,
            y@ == b@,
            x@.len() == y@.len(),
            i <= x@.len(),
            x@.take(i as int) == y@.take(i as int),
        decreases x@.len() - i,
    {
        if x[i] != y[i] {
            assert(a@[i as int] != b@[i as int]);
            return false;
        }
        assert(x@.take(i + 1) == x@.take(i as int).push(x@[i as int]));
        assert(y@.take(i + 1) == y@.take(i as int).push(y@[i as int]));
        i = i + 1;
    }
    assert(x@.take(x@.len() as int) == x@);
    assert(y@.take(y@.len() as int) == y@);
    true
}

/// `prefix` followed by `suffix`.
pub fn joined(prefix: &str, suffix: &str) -> (s: String)
    ensures
        s@ == prefix@ + suffix@,
{
    let mut s = String::from_str(prefix);
    s.append(suffix);
    s
}

/// The pieces of `s` between occurrences of `sep`, as std's `split` yields them: one more
/// piece than there are separators, empty pieces included.
pub open spec fn split_on(s: Seq<u8>, sep: u8) -> Seq<Seq<u8>>
    decreases s.len(),
{
    if s.len() == 0 {
        seq![Seq::<u8>::empty()]
    } else {
        let previous = split_on(s.drop_last(), sep);
        if s.last() == sep {
            previous.push(Seq::<u8>::empty())
        } else {
            previous.update(previous.len() - 1, previous.last().push(s.last()))
        }
    }
}

/// The non-empty pieces of `s` between occurrences of `sep`, in order.
pub open spec fn nonempty_pieces(s: Seq<u8>, sep: u8) -> Seq<Seq<u8>> {
    split_on(s, sep).filter(nonempty_piece())
}

pub open spec fn nonempty_piece() -> spec_fn(Seq<u8>) -> bool {
    |piece: Seq<u8>| piece.len() > 0
}

/// `s` holds no `sep` byte.
pub open spec fn free_of(s: Seq<u8>, sep: u8) -> bool {
    forall|i: int| 0 <= i < s.len() ==> #[trigger] s[i] != sep
}

pub proof fn lemma_split_on_len(s: Seq<u8>, sep: u8)
    ensures
        split_on(s, sep).len() >= 1,
    decreases s.len(),
{
    if s.len() > 0 {
        lemma_split_on_len(s.drop_last(), sep);
    }
}

/// Appending separator-free bytes extends the last piece.
pub proof fn lemma_split_on_extend(a: Seq<u8>, b: Seq<u8>, sep: u8)
    requires
        free_of(b, sep),
    ensures
        split_on(a + b, sep) == split_on(a, sep).update(
            split_on(a, sep).len() - 1,
            split_on(a, sep).last() + b,
        ),
    decreases b.len(),
{
    lemma_split_on_len(a, sep);
    if b.len() == 0 {
        assert(a + b =~= a);
        assert(split_on(a, sep).last() + b =~= split_on(a, sep).last());
        assert(split_on(a, sep).update(split_on(a, sep).len() - 1, split_on(a, sep).last())
            =~= split_on(a, sep));
    } else {
        let b0 = b.drop_last();
        assert(free_of(b0, sep)) by {
            assert forall|i: int| 0 <= i < b0.len() implies #[trigger] b0[i] != sep by {
                assert(b0[i] == b[i]);
            }
        }
        lemma_split_on_extend(a, b0, sep);
        assert((a + b).drop_last() =~= a + b0);
        assert((a + b).last() == b.last());
        assert(b.last() != sep) by {
            assert(b[b.len() - 1] != sep);
        }
        assert(split_on(a, sep).last() + b0 + seq![b.last()] =~= split_on(a, sep).last() + b);
        lemma_split_on_len(a + b0, sep);
        let p = split_on(a, sep);
        let previous = split_on(a + b0, sep);
        assert(previous.len() == p.len());
        assert(previous.last() == p.last() + b0);
        assert(split_on(a + b, sep) == previous.update(
            previous.len() - 1,
            previous.last().push(b.last()),
        ));
        assert((p.last() + b0).push(b.last()) =~= p.last() + b);
        assert(split_on(a + b, sep) =~= split_on(a, sep).update(
            split_on(a, sep).len() - 1,
            split_on(a, sep).last() + b,
        ));
    }
}

/// Appending a separator starts a new, empty piece.
pub proof fn lemma_split_on_separator(a: Seq<u8>, sep: u8)
    ensures
        split_on(a.push(sep), sep) == split_on(a, sep).push(Seq::<u8>::empty()),
{
    assert(a.push(sep).drop_last() =~= a);
}

/// Piece-by-piece view of `s` at a piece boundary `start` (the start of `s`, or right after a
/// separator): the pieces of `s[..end]` for a separator-free `s[start..end]` are the pieces
/// before `start` followed by `s[start..end]`.
pub proof fn lemma_split_on_piece(s: Seq<u8>, sep: u8, start: int, end: int)
    requires
        0 <= start <= end <= s.len(),
        start == 0 || s[start - 1] == sep,
        free_of(s.subrange(start, end), sep),
    ensures
        split_on(s.take(end), sep) == split_on(s.take(start), sep).drop_last().push(
            s.subrange(start, end),
        ),
        split_on(s.take(start), sep).last() == Seq::<u8>::empty(),
{
    lemma_split_on_len(s.take(start), sep);
    if start == 0 {
        assert(s.take(0) =~= Seq::<u8>::empty());
    } else {
        assert(s.take(start) =~= s.take(start - 1).push(sep));
        lemma_split_on_separator(s.take(start - 1), sep);
    }
    assert(s.take(end) =~= s.take(start) + s.subrange(start, end));
    lemma_split_on_extend(s.take(start), s.subrange(start, end), sep);
    assert(Seq::<u8>::empty() + s.subrange(start, end) =~= s.subrange(start, end));
    assert(split_on(s.take(start), sep).update(
        split_on(s.take(start), sep).len() - 1,
        s.subrange(start, end),
    ) =~= split_on(s.take(start), sep).drop_last().push(s.subrange(start, end)));
}

/// First position in `input[from..to]` holding `byte`, or `to`.
pub fn find_byte(input: &[u8], from: usize, to: usize, byte: u8) -> (j: usize)
    requires
        from <= to <= input@.len(),
    ensures
        from <= j <= to,
        free_of(input@.subrange(from as int, j as int), byte),
        j < to ==> input@[j as int] == byte,
{
    let mut j = from;
    while j < to
        invariant
            from <= j <= to <= input@.len(),
            free_of(input@.subrange(from as int, j as int), byte),
        decreases to - j,
    {
        if input[j] == byte {
            return j;
        }
        assert(free_of(input@.subrange(from as int, j + 1), byte)) by {
            let t = input@.subrange(from as int, j + 1);
            assert forall|i: int| 0 <= i < t.len() implies #[trigger] t[i] != byte by {
                if i < t.len() - 1 {
                    assert(t[i] == input@.subrange(from as int, j as int)[i]);
                }
            }
        }
        j = j + 1;
    }
    j
}

/// The non-empty pieces up to the end of a separator-free stretch that starts at a piece
/// boundary.
pub proof fn lemma_nonempty_pieces_piece(s: Seq<u8>, sep: u8, start: int, end: int)
    requires
        0 <= start <= end <= s.len(),
        start == 0 || s[start - 1] == sep,
        free_of(s.subrange(start, end), sep),
    ensures
        nonempty_pieces(s.take(end), sep) == if end > start {
            nonempty_pieces(s.take(start), sep).push(s.subrange(start, end))
        } else {
            nonempty_pieces(s.take(start), sep)
        },
{
    lemma_split_on_piece(s, sep, start, end);
    lemma_split_on_len(s.take(start), sep);
    let d = split_on(s.take(start), sep).drop_last();
    assert(split_on(s.take(start), sep) =~= d.push(Seq::<u8>::empty()));
    d.lemma_filter_push(Seq::<u8>::empty(), nonempty_piece());
    d.lemma_filter_push(s.subrange(start, end), nonempty_piece());
}

/// A separator adds only an empty piece.
pub proof fn lemma_nonempty_pieces_separator(s: Seq<u8>, sep: u8, j: int)
    requires
        0 <= j < s.len(),
        s[j] == sep,
    ensures
        nonempty_pieces(s.take(j + 1), sep) == nonempty_pieces(s.take(j), sep),
{
    assert(s.take(j + 1) =~= s.take(j).push(sep));
    lemma_split_on_separator(s.take(j), sep);
    split_on(s.take(j), sep).lemma_filter_push(Seq::<u8>::empty(), nonempty_piece());
}

proof fn lemma_split_on_prefix(s: Seq<u8>, sep: u8, m: int, n: int)
    requires
        0 <= m < n <= s.len(),
        s[m] == sep,
    ensures
        split_on(s.take(n), sep).len() > split_on(s.take(m), sep).len(),
        split_on(s.take(n), sep).subrange(0, split_on(s.take(m), sep).len() as int) == split_on(
            s.take(m),
            sep,
        ),
    decreases n - m,
{
    let a = split_on(s.take(m), sep);
    if n == m + 1 {
        assert(s.take(m + 1) =~= s.take(m).push(sep));
        lemma_split_on_separator(s.take(m), sep);
        assert(split_on(s.take(n), sep).subrange(0, a.len() as int) =~= a);
    } else {
        lemma_split_on_prefix(s, sep, m, n - 1);
        assert(s.take(n).drop_last() =~= s.take(n - 1));
        let previous = split_on(s.take(n - 1), sep);
        assert(split_on(s.take(n), sep).subrange(0, a.len() as int) =~= previous.subrange(
            0,
            a.len() as int,
        ));
    }
}

/// The non-empty pieces of a prefix that ends at a separator (or at the end) are a prefix of
/// the non-empty pieces of the whole.
pub proof fn lemma_nonempty_pieces_prefix(s: Seq<u8>, sep: u8, m: int)
    requires
        0 <= m <= s.len(),
        m == s.len() || s[m] == sep,
    ensures
        nonempty_pieces(s.take(m), sep).len() <= nonempty_pieces(s, sep).len(),
        forall|i: int|
            0 <= i < nonempty_pieces(s.take(m), sep).len() ==> #[trigger] nonempty_pieces(
                s.take(m),
                sep,
            )[i] == nonempty_pieces(s, sep)[i],
{
    if m == s.len() {
        assert(s.take(m) =~= s);
    } else {
        let a = split_on(s.take(m), sep);
        let n = s.len() as int;
        lemma_split_on_prefix(s, sep, m, n);
        assert(s.take(n) =~= s);
        let full = split_on(s, sep);
        let rest = full.subrange(a.len() as int, full.len() as int);
        assert(full =~= a + rest);
        Seq::filter_distributes_over_add(a, rest, nonempty_piece());
    }
}

/// Empty input has no non-empty pieces.
pub proof fn lemma_nonempty_pieces_empty(s: Seq<u8>, sep: u8)
    requires
        s.len() == 0,
    ensures
        nonempty_pieces(s, sep).len() == 0,
{
    reveal(Seq::filter);
    Seq::<Seq<u8>>::empty().lemma_filter_push(Seq::<u8>::empty(), nonempty_piece());
    assert(split_on(s, sep) =~= Seq::<Seq<u8>>::empty().push(Seq::<u8>::empty()));
}

/// Whether every non-empty `sep`-separated piece of `s` is an accepted unsigned integer no
/// larger than `max`.
pub open spec fn pieces_accepted(s: Seq<u8>, sep: u8, max: nat) -> bool {
    forall|i: int|
        0 <= i < nonempty_pieces(s, sep).len() ==> unsigned_accepts(
            #[trigger] nonempty_pieces(s, sep)[i],
            max,
        )
}

/// Parses each non-empty `sep`-separated piece of `input[start..end]` as an unsigned decimal
/// integer no larger than `max`; `None` when any piece is not accepted.
pub fn parse_unsigned_pieces(input: &[u8], start: usize, end: usize, sep: u8, max: u64) -> (r:
    Option<Vec<u64>>)
    requires
        start <= end <= input@.len(),
    ensures
        ({
            let pieces = nonempty_pieces(input@.subrange(start as int, end as int), sep);
            match r {
                Some(values) => {
                    &&& pieces_accepted(input@.subrange(start as int, end as int), sep, max as nat)
                    &&& values@.len() == pieces.len()
                    &&& forall|i: int|
                        0 <= i < pieces.len() ==> values@[i] == unsigned_value(
                            #[trigger] pieces[i],
                        )
                },
                None => !pieces_accepted(input@.subrange(start as int, end as int), sep, max as nat),
            }
        }),
{
    let ghost body = input@.subrange(start as int, end as int);
    let mut values: Vec<u64> = Vec::new();
    let mut piece_start = start;
    proof {
        lemma_nonempty_pieces_empty(body.take(0), sep);
    }
    loop
        invariant
            start <= piece_start <= end <= input@.len(),
            body == input@.subrange(start as int, end as int),
            piece_start == start || body[piece_start - start - 1] == sep,
            values@.len() == nonempty_pieces(body.take(piece_start - start), sep).len(),
            forall|i: int|
                0 <= i < values@.len() ==> {
                    &&& unsigned_accepts(
                        #[trigger] nonempty_pieces(body.take(piece_start - start), sep)[i],
                        max as nat,
                    )
                    &&& values@[i] == unsigned_value(
                        nonempty_pieces(body.take(piece_start - start), sep)[i],
                    )
                },
        decreases end - piece_start,
    {
        let j = find_byte(input, piece_start, end, sep);
        let ghost k = piece_start - start;
        let ghost m = j - start;
        proof {
            assert(body.subrange(k, m) =~= input@.subrange(piece_start as int, j as int));
            lemma_nonempty_pieces_piece(body, sep, k, m);
        }
        if j > piece_start {
            match parse_unsigned(input, piece_start, j, max) {
                None => {
                    proof {
                        let pieces_m = nonempty_pieces(body.take(m), sep);
                        assert(pieces_m[pieces_m.len() - 1] == body.subrange(k, m));
                        if j < end {
                            lemma_nonempty_pieces_separator(body, sep, m);
                        }
                        lemma_nonempty_pieces_prefix(body, sep, m);
                    }
                    return None;
                },
                Some(v) => {
                    values.push(v);
                },
            }
        }
        if j == end {
            proof {
                assert(body.take(m) =~= body);
            }
            return Some(values);
        }
        proof {
            lemma_nonempty_pieces_separator(body, sep, m);
        }
        piece_start = j + 1;
    }
}

/// Position of the first `byte` in `s` at or after `from`.
pub open spec fn first_index(s: Seq<u8>, byte: u8, from: int) -> Option<int>
    decreases s.len() - from,
{
    if from < 0 || from >= s.len() {
        None
    } else if s[from] == byte {
        Some(from)
    } else {
        first_index(s, byte, from + 1)
    }
}

/// A separator-free stretch from `from` ends at the first occurrence, if any.
pub proof fn lemma_first_index(s: Seq<u8>, byte: u8, from: int, j: int)
    requires
        0 <= from <= j <= s.len(),
        free_of(s.subrange(from, j), byte),
        j == s.len() || s[j] == byte,
    ensures
        first_index(s, byte, from) == if j < s.len() {
            Some(j)
        } else {
            None::<int>
        },
    decreases j - from,
{
    if from < j {
        assert(s[from] == s.subrange(from, j)[0]);
        assert(free_of(s.subrange(from + 1, j), byte)) by {
            assert forall|i: int| 0 <= i < j - from - 1 implies #[trigger] s.subrange(
                from + 1,
                j,
            )[i] != byte by {
                assert(s.subrange(from + 1, j)[i] == s.subrange(from, j)[i + 1]);
            }
        }
        lemma_first_index(s, byte, from + 1, j);
    }
}

/// What [`find_byte`] finds, stated over the searched range.
pub proof fn lemma_find_byte_first(input: Seq<u8>, from: int, to: int, byte: u8, j: int)
    requires
        0 <= from <= j <= to <= input.len(),
        free_of(input.subrange(from, j), byte),
        j < to ==> input[j] == byte,
    ensures
        first_index(input.subrange(from, to), byte, 0) == if j < to {
            Some(j - from)
        } else {
            None::<int>
        },
{
    let t = input.subrange(from, to);
    assert(t.subrange(0, j - from) =~= input.subrange(from, j));
    lemma_first_index(t, byte, 0, j - from);
}

/// Characters as bytes (meaningful for ASCII text).
pub open spec fn ascii_bytes(s: Seq<char>) -> Seq<u8> {
    s.map_values(|c: char| c as u8)
}

/// Appends the ASCII text `text` to `out`.
pub fn push_ascii(out: &mut Vec<u8>, text: &str)
    ensures
        final(out)@ == old(out)@ + ascii_bytes(text@),
{
    let chars = chars_of(text);
    let mut i: usize = 0;
    while i < chars.len()
        invariant
            i <= chars@.len(),
            chars@ == text@,
            out@ == old(out)@ + ascii_bytes(chars@.take(i as int)),
        decreases chars@.len() - i,
    {
        out.push(chars[i] as u8);
        assert(ascii_bytes(chars@.take(i + 1)) =~= ascii_bytes(chars@.take(i as int)).push(
            chars@[i as int] as u8,
        ));
        i = i + 1;
    }
    assert(chars@.take(chars@.len() as int) =~= chars@);
}

/// Decimal digits of an unsigned integer as ASCII bytes.
pub fn decimal_bytes(n: u64) -> (v: Vec<u8>)
    ensures
        v@ == ascii_bytes(decimal_chars(n as nat)),
{
    let s = decimal_string(n);
    let mut v: Vec<u8> = Vec::new();
    push_ascii(&mut v, s.as_str());
    v
}

/// Position of the first `x` in `s` at or after `from`.
pub open spec fn first_position<A>(s: Seq<A>, x: A, from: int) -> Option<int>
    decreases s.len() - from,
{
    if from < 0 || from >= s.len() {
        None
    } else if s[from] == x {
        Some(from)
    } else {
        first_position(s, x, from + 1)
    }
}

/// What [`first_position`] yields: the first occurrence, or none from `from` on.
pub proof fn lemma_first_position<A>(s: Seq<A>, x: A, from: int)
    requires
        0 <= from,
    ensures
        match first_position(s, x, from) {
            Some(j) => from <= j < s.len() && s[j] == x && forall|i: int|
                from <= i < j ==> s[i] != x,
            None => forall|i: int| from <= i < s.len() ==> s[i] != x,
        },
    decreases s.len() - from,
{
    if from < s.len() && s[from] != x {
        lemma_first_position(s, x, from + 1);
    }
}

/// Index of the first `c` in `chars` at or after `from`, or the length when there is none.
pub fn find_char(chars: &[char], from: usize, c: char) -> (j: usize)
    requires
        from <= chars@.len(),
    ensures
        from <= j <= chars@.len(),
        first_position(chars@, c, from as int) == if j < chars@.len() {
            Some(j as int)
        } else {
            None::<int>
        },
{
    let mut i = from;
    while i < chars.len()
        invariant
            from <= i <= chars@.len(),
            first_position(chars@, c, from as int) == first_position(chars@, c, i as int),
        decreases chars@.len() - i,
    {
        if chars[i] == c {
            return i;
        }
        i = i + 1;
    }
    i
}

/// Whether `chars` contains `c`.
pub fn contains_char(chars: &[char], c: char) -> (r: bool)
    ensures
        r == chars@.contains(c),
{
    let j = find_char(chars, 0, c);
    proof {
        lemma_first_position(chars@, c, 0);
    }
    if j < chars.len() {
        assert(chars@[j as int] == c);
        true
    } else {
        false
    }
}

/// Copies `chars[start..end]`.
pub fn copy_chars(chars: &[char], start: usize, end: usize) -> (v: Vec<char>)
    requires
        start <= end <= chars@.len(),
    ensures
        v@ == chars@.subrange(start as int, end as int),
{
    let mut v: Vec<char> = Vec::new();
    let mut i = start;
    while i < end
        invariant
            start <= i <= end <= chars@.len(),
            v@ == chars@.subrange(start as int, i as int),
        decreases end - i,
    {
        v.push(chars[i]);
        i = i + 1;
    }
    v
}

/// `s` begins with `prefix`.
pub open spec fn has_prefix<A>(s: Seq<A>, prefix: Seq<A>) -> bool {
    prefix.len() <= s.len() && s.take(prefix.len() as int) == prefix
}

/// Whether `chars` begins with `prefix`.
pub fn starts_with_chars(chars: &[char], prefix: &[char]) -> (r: bool)
    ensures
        r == has_prefix(chars@, prefix@),
{
    if prefix.len() > chars.len() {
        return false;
    }
    let mut i: usize = 0;
    while i < prefix.len()
        invariant
            i <= prefix@.len() <= chars@.len(),
            chars@.take(i as int) == prefix@.take(i as int),
        decreases prefix@.len() - i,
    {
        if chars[i] != prefix[i] {
            assert(chars@.take(prefix@.len() as int)[i as int] != prefix@[i as int]);
            return false;
        }
        assert(chars@.take(i + 1) =~= chars@.take(i as int).push(chars@[i as int]));
        assert(prefix@.take(i + 1) =~= prefix@.take(i as int).push(prefix@[i as int]));
        i = i + 1;
    }
    assert(prefix@.take(prefix@.len() as int) =~= prefix@);
    true
}

/// `a` sorts strictly before `b`: lexicographic order by code point, which is the order of
/// `String`'s `Ord` (and of the UTF-8 bytes).
pub open spec fn text_less(a: Seq<char>, b: Seq<char>) -> bool
    decreases a.len(),
{
    if b.len() == 0 {
        false
    } else if a.len() == 0 {
        true
    } else if a[0] != b[0] {
        a[0] < b[0]
    } else {
        text_less(a.skip(1), b.skip(1))
    }
}

/// No text sorts before itself.
pub proof fn lemma_text_less_irreflexive(a: Seq<char>)
    ensures
        !text_less(a, a),
    decreases a.len(),
{
    if a.len() > 0 {
        lemma_text_less_irreflexive(a.skip(1));
    }
}

/// The order is transitive.
pub proof fn lemma_text_less_transitive(a: Seq<char>, b: Seq<char>, c: Seq<char>)
    requires
        text_less(a, b),
        text_less(b, c),
    ensures
        text_less(a, c),
    decreases a.len(),
{
    if a.len() > 0 && b.len() > 0 && c.len() > 0 && a[0] == b[0] && b[0] == c[0] {
        lemma_text_less_transitive(a.skip(1), b.skip(1), c.skip(1));
    }
}

/// Two different texts are ordered one way or the other.
pub proof fn lemma_text_less_total(a: Seq<char>, b: Seq<char>)
    requires
        a != b,
    ensures
        text_less(a, b) || text_less(b, a),
    decreases a.len(),
{
    if a.len() > 0 && b.len() > 0 && a[0] == b[0] {
        if a.skip(1) == b.skip(1) {
            assert(a =~= seq![a[0]] + a.skip(1));
            assert(b =~= seq![b[0]] + b.skip(1));
        }
        lemma_text_less_total(a.skip(1), b.skip(1));
    } else if a.len() == 0 && b.len() == 0 {
        assert(a =~= b);
    }
}

/// Whether `a` sorts strictly before `b`.
pub fn text_lt(a: &str, b: &str) -> (r: bool)
    ensures
        r == text_less(a@, b@),
{
    let x = chars_of(a);
    let y = chars_of(b);
    let mut i: usize = 0;
    assert(x@.skip(0) =~= x@);
    assert(y@.skip(0) =~= y@);
    while i < x.len() && i < y.len() && x[i] == y[i]
        invariant
            i <= x@.len(),
            i <= y@.len(),
            x@ == a@,
            y@ == b@,
            text_less(a@, b@) == text_less(x@.skip(i as int), y@.skip(i as int)),
        decreases x@.len() - i,
    {
        assert(x@.skip(i as int).skip(1) =~= x@.skip(i + 1));
        assert(y@.skip(i as int).skip(1) =~= y@.skip(i + 1));
        i = i + 1;
    }
    if i == y.len() {
        false
    } else if i == x.len() {
        true
    } else {
        x[i] < y[i]
    }
}

} // verus!
