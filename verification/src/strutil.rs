//! Verified text helpers: case folding, splitting, joining, and number
//! parsing, over `Seq<char>` models.
use vstd::prelude::*;

verus! {

/// Relies on String::push: appends exactly one character.
#[verifier::external_body]
pub fn push_char(s: &mut String, c: char)
    ensures
        final (s)@ == old(s)@.push(c),
{
    s.push(c);
}

/// The ASCII lower-case form of one character.
pub open spec fn lower_char_spec(c: char) -> char {
    if 'A' <= c && c <= 'Z' {
        ((c as u8) + 32) as char
    } else {
        c
    }
}

/// The ASCII lower-case form of a character sequence.
pub open spec fn lower_spec(s: Seq<char>) -> Seq<char> {
    Seq::new(s.len(), |i: int| lower_char_spec(s[i]))
}

/// ASCII-lower-case one character.
pub fn lower_char(c: char) -> (r: char)
    ensures
        r == lower_char_spec(c),
{
    if 'A' <= c && c <= 'Z' {
        ((c as u8) + 32) as char
    } else {
        c
    }
}

/// ASCII-lower-case a string.
pub fn to_lower(s: &str) -> (r: String)
    ensures
        r@ == lower_spec(s@),
{
    let n = s.unicode_len();
    let mut out = String::new();
    let mut i: usize = 0;
    while i < n
        invariant
            n == s@.len(),
            i <= n,
            out@ == lower_spec(s@).subrange(0, i as int),
        decreases n - i,
    {
        let c = s.get_char(i);
        let l = lower_char(c);
        push_char(&mut out, l);
        proof {
            assert(out@ =~= lower_spec(s@).subrange(0, i as int + 1));
        }
        i = i + 1;
    }
    proof {
        assert(lower_spec(s@).subrange(0, n as int) =~= lower_spec(s@));
    }
    out
}

/// Replace every occurrence of one character by another.
pub open spec fn replace_spec(s: Seq<char>, from: char, to: char) -> Seq<char> {
    Seq::new(
        s.len(),
        |i: int|
            if s[i] == from {
                to
            } else {
                s[i]
            },
    )
}

/// Replace every occurrence of `from` by `to`.
pub fn replace_char(s: &str, from: char, to: char) -> (r: String)
    ensures
        r@ == replace_spec(s@, from, to),
{
    let n = s.unicode_len();
    let mut out = String::new();
    let mut i: usize = 0;
    while i < n
        invariant
            n == s@.len(),
            i <= n,
            out@ == replace_spec(s@, from, to).subrange(0, i as int),
        decreases n - i,
    {
        let c = s.get_char(i);
        if c == from {
            push_char(&mut out, to);
        } else {
            push_char(&mut out, c);
        }
        proof {
            assert(out@ =~= replace_spec(s@, from, to).subrange(0, i as int + 1));
        }
        i = i + 1;
    }
    proof {
        assert(replace_spec(s@, from, to).subrange(0, n as int) =~= replace_spec(s@, from, to));
    }
    out
}

/// The position of the first occurrence of `c`, or -1.
pub open spec fn first_pos(s: Seq<char>, c: char) -> int
    decreases s.len(),
{
    if s.len() == 0 {
        -1
    } else if s[0] == c {
        0
    } else {
        if first_pos(s.drop_first(), c) == -1 {
            -1
        } else {
            first_pos(s.drop_first(), c) + 1
        }
    }
}

/// `first_pos` is the least position carrying `c`.
pub proof fn lemma_first_pos(s: Seq<char>, c: char)
    ensures
        first_pos(s, c) == -1 ==> forall|i: int| 0 <= i < s.len() ==> s[i] != c,
        first_pos(s, c) != -1 ==> {
            &&& 0 <= first_pos(s, c) < s.len()
            &&& s[first_pos(s, c)] == c
            &&& forall|i: int| 0 <= i < first_pos(s, c) ==> s[i] != c
        },
    decreases s.len(),
{
    if s.len() > 0 && s[0] != c {
        lemma_first_pos(s.drop_first(), c);
        let fd = first_pos(s.drop_first(), c);
        if fd == -1 {
            assert forall|i: int| 0 <= i < s.len() implies s[i] != c by {
                if i > 0 {
                    assert(s.drop_first()[i - 1] != c);
                }
            }
        } else {
            assert(s[fd + 1] == s.drop_first()[fd]);
            assert forall|i: int| 0 <= i < fd + 1 implies s[i] != c by {
                if i > 0 {
                    assert(s.drop_first()[i - 1] != c);
                }
            }
        }
    }
}

/// The position of the first occurrence of `c`, if any.
pub fn find_char(s: &str, c: char) -> (r: Option<usize>)
    ensures
        match r {
            Some(p) => p == first_pos(s@, c),
            None => first_pos(s@, c) == -1,
        },
{
    let n = s.unicode_len();
    let mut i: usize = 0;
    while i < n
        invariant
            n == s@.len(),
            i <= n,
            forall|j: int| 0 <= j < i ==> s@[j] != c,
        decreases n - i,
    {
        if s.get_char(i) == c {
            proof {
                lemma_first_pos(s@, c);
            }
            return Some(i);
        }
        i = i + 1;
    }
    proof {
        lemma_first_pos(s@, c);
    }
    None
}

/// The position of the last occurrence of `c`, or -1.
pub open spec fn last_pos(s: Seq<char>, c: char) -> int
    decreases s.len(),
{
    if s.len() == 0 {
        -1
    } else if s.last() == c {
        s.len() - 1
    } else {
        last_pos(s.drop_last(), c)
    }
}

/// `last_pos` is the greatest position carrying `c`.
pub proof fn lemma_last_pos(s: Seq<char>, c: char)
    ensures
        last_pos(s, c) == -1 ==> forall|i: int| 0 <= i < s.len() ==> s[i] != c,
        last_pos(s, c) != -1 ==> {
            &&& 0 <= last_pos(s, c) < s.len()
            &&& s[last_pos(s, c)] == c
            &&& forall|i: int| last_pos(s, c) < i < s.len() ==> s[i] != c
        },
    decreases s.len(),
{
    if s.len() > 0 && s.last() != c {
        lemma_last_pos(s.drop_last(), c);
        let ld = last_pos(s.drop_last(), c);
        if ld == -1 {
            assert forall|i: int| 0 <= i < s.len() implies s[i] != c by {
                if i < s.len() - 1 {
                    assert(s.drop_last()[i] != c);
                }
            }
        } else {
            assert(s[ld] == s.drop_last()[ld]);
            assert forall|i: int| ld < i < s.len() implies s[i] != c by {
                if i < s.len() - 1 {
                    assert(s.drop_last()[i] != c);
                }
            }
        }
    }
}

/// The position of the last occurrence of `c`, if any.
pub fn rfind_char(s: &str, c: char) -> (r: Option<usize>)
    ensures
        match r {
            Some(p) => p == last_pos(s@, c),
            None => last_pos(s@, c) == -1,
        },
{
    let n = s.unicode_len();
    let mut i: usize = n;
    while i > 0
        invariant
            n == s@.len(),
            i <= n,
            forall|j: int| i <= j < n ==> s@[j] != c,
        decreases i,
    {
        i = i - 1;
        if s.get_char(i) == c {
            proof {
                lemma_last_pos(s@, c);
                if last_pos(s@, c) != i {
                    assert(s@[last_pos(s@, c)] == c);
                }
            }
            return Some(i);
        }
    }
    proof {
        lemma_last_pos(s@, c);
        if last_pos(s@, c) != -1 {
            assert(s@[last_pos(s@, c)] == c);
        }
    }
    None
}

/// The pieces of `s` between occurrences of `c`, in order.
pub open spec fn split_spec(s: Seq<char>, c: char) -> Seq<Seq<char>>
    decreases s.len(),
{
    if first_pos(s, c) == -1 {
        seq![s]
    } else {
        proof {
            lemma_first_pos(s, c);
        }
        seq![s.subrange(0, first_pos(s, c))] + split_spec(
            s.subrange(first_pos(s, c) + 1, s.len() as int),
            c,
        )
    }
}

/// Split `s` at every occurrence of `c`.
pub fn split_char(s: &str, c: char) -> (r: Vec<String>)
    ensures
        r@.map_values(|p: String| p@) == split_spec(s@, c),
    decreases s@.len(),
{
    proof {
        lemma_first_pos(s@, c);
    }
    let n = s.unicode_len();
    match find_char(s, c) {
        None => {
            let mut out: Vec<String> = Vec::new();
            out.push(s.to_owned());
            proof {
                assert(out@.map_values(|p: String| p@) =~= split_spec(s@, c));
            }
            out
        },
        Some(p) => {
            let head = s.substring_char(0, p).to_owned();
            let tail = s.substring_char(p + 1, n);
            let rest = split_char(tail, c);
            let mut out: Vec<String> = Vec::new();
            out.push(head);
            let mut i: usize = 0;
            while i < rest.len()
                invariant
                    i <= rest@.len(),
                    out@.len() == 1 + i,
                    out@[0]@ == s@.subrange(0, first_pos(s@, c)),
                    forall|j: int| 0 <= j < i ==> (#[trigger] out@[j + 1])@ == rest@[j]@,
                decreases rest@.len() - i,
            {
                let piece = rest[i].clone();
                out.push(piece);
                i = i + 1;
            }
            proof {
                let fp = first_pos(s@, c);
                let model = out@.map_values(|p2: String| p2@);
                let target = split_spec(s@, c);
                assert(target == seq![s@.subrange(0, fp)] + split_spec(
                    s@.subrange(fp + 1, s@.len() as int),
                    c,
                ));
                assert forall|l: int| 0 <= l < model.len() implies model[l] == target[l] by {
                    if l > 0 {
                        assert(out@[(l - 1) + 1]@ == rest@[l - 1]@);
                        assert(rest@.map_values(|p2: String| p2@)[l - 1] == rest@[l - 1]@);
                    }
                }
                assert(model =~= target);
            }
            out
        },
    }
}

/// No piece of a split contains the separator.
pub proof fn lemma_split_no_sep(s: Seq<char>, c: char)
    ensures
        forall|i: int|
            0 <= i < split_spec(s, c).len() ==> !(#[trigger] split_spec(s, c)[i]).contains(c),
    decreases s.len(),
{
    lemma_first_pos(s, c);
    let fp = first_pos(s, c);
    if fp == -1 {
        assert forall|i: int|
            0 <= i < split_spec(s, c).len() implies !(#[trigger] split_spec(s, c)[i]).contains(
            c,
        ) by {
            assert(split_spec(s, c)[i] == s);
            if s.contains(c) {
                let w = choose|w: int| 0 <= w < s.len() && s[w] == c;
                assert(s[w] == c);
            }
        }
    } else {
        let head = s.subrange(0, fp);
        let tail = s.subrange(fp + 1, s.len() as int);
        lemma_split_no_sep(tail, c);
        assert forall|i: int|
            0 <= i < split_spec(s, c).len() implies !(#[trigger] split_spec(s, c)[i]).contains(
            c,
        ) by {
            if i == 0 {
                assert(split_spec(s, c)[0] == head);
                if head.contains(c) {
                    let w = choose|w: int| 0 <= w < head.len() && head[w] == c;
                    assert(s[w] == c);
                }
            } else {
                assert(split_spec(s, c)[i] == split_spec(tail, c)[i - 1]);
            }
        }
    }
}

/// The pieces joined with `sep` between them.
pub open spec fn join_spec(parts: Seq<Seq<char>>, sep: char) -> Seq<char>
    decreases parts.len(),
{
    if parts.len() == 0 {
        Seq::empty()
    } else if parts.len() == 1 {
        parts[0]
    } else {
        parts[0] + seq![sep] + join_spec(parts.drop_first(), sep)
    }
}

/// Joining one more piece onto the end.
pub proof fn lemma_join_snoc(parts: Seq<Seq<char>>, x: Seq<char>, sep: char)
    ensures
        parts.len() == 0 ==> join_spec(parts.push(x), sep) == x,
        parts.len() > 0 ==> join_spec(parts.push(x), sep) == join_spec(parts, sep) + seq![sep] + x,
    decreases parts.len(),
{
    if parts.len() == 0 {
        assert(join_spec(parts.push(x), sep) == parts.push(x)[0]);
        assert(parts.push(x)[0] == x);
    } else if parts.len() == 1 {
        assert(parts.push(x).drop_first() =~= seq![x]);
        assert(join_spec(seq![x], sep) == x);
    } else {
        lemma_join_snoc(parts.drop_first(), x, sep);
        assert(parts.push(x).drop_first() =~= parts.drop_first().push(x));
        assert(join_spec(parts, sep) == parts[0] + seq![sep] + join_spec(parts.drop_first(), sep));
    }
}

/// Join the pieces with `sep` between them.
pub fn join_char(parts: &Vec<String>, sep: char) -> (r: String)
    ensures
        r@ == join_spec(parts@.map_values(|p: String| p@), sep),
{
    let ghost model = parts@.map_values(|p: String| p@);
    let mut out = String::new();
    let mut i: usize = 0;
    while i < parts.len()
        invariant
            i <= parts@.len(),
            model == parts@.map_values(|p: String| p@),
            out@ == join_spec(model.subrange(0, i as int), sep),
        decreases parts@.len() - i,
    {
        proof {
            lemma_join_snoc(model.subrange(0, i as int), model[i as int], sep);
            assert(model.subrange(0, i as int).push(model[i as int]) =~= model.subrange(
                0,
                i as int + 1,
            ));
        }
        if i > 0 {
            push_char(&mut out, sep);
        }
        out.append(parts[i].as_str());
        i = i + 1;
    }
    proof {
        assert(model.subrange(0, parts@.len() as int) =~= model);
    }
    out
}

/// Whether the two strings hold the same characters.
pub fn str_eq(a: &str, b: &str) -> (r: bool)
    ensures
        r == (a@ == b@),
{
    let n = a.unicode_len();
    let m = b.unicode_len();
    if n != m {
        proof {
            assert(a@ != b@);
        }
        return false;
    }
    let mut i: usize = 0;
    while i < n
        invariant
            n == a@.len(),
            n == b@.len(),
            i <= n,
            forall|j: int| 0 <= j < i ==> a@[j] == b@[j],
        decreases n - i,
    {
        if a.get_char(i) != b.get_char(i) {
            return false;
        }
        i = i + 1;
    }
    proof {
        assert(a@ =~= b@);
    }
    true
}

/// Whether every character is a decimal digit, and there is at least one.
pub open spec fn all_digits(s: Seq<char>) -> bool {
    s.len() > 0 && forall|i: int| 0 <= i < s.len() ==> '0' <= #[trigger] s[i] <= '9'
}

/// The number the decimal digits write.
pub open spec fn digits_val(s: Seq<char>) -> int
    decreases s.len(),
{
    if s.len() == 0 {
        0
    } else {
        digits_val(s.drop_last()) * 10 + (s.last() as int - 48)
    }
}

/// Ten to the given power.
pub open spec fn pow10(n: nat) -> int
    decreases n,
{
    if n == 0 {
        1
    } else {
        10 * pow10((n - 1) as nat)
    }
}

/// A digit string's value is bounded by ten to its length.
pub proof fn lemma_digits_val_bound(s: Seq<char>)
    requires
        forall|i: int| 0 <= i < s.len() ==> '0' <= #[trigger] s[i] <= '9',
    ensures
        0 <= digits_val(s) < pow10(s.len()),
    decreases s.len(),
{
    if s.len() > 0 {
        lemma_digits_val_bound(s.drop_last());
    }
}

/// An integer literal: an optional minus sign and decimal digits.
///
/// Literals of more than 18 digits are not taken as numbers here; they stay
/// text, so every accepted value fits an `i64` comfortably.
pub open spec fn is_int_literal(s: Seq<char>) -> bool {
    if s.len() > 0 && s[0] == '-' {
        all_digits(s.drop_first()) && s.len() <= 19
    } else {
        all_digits(s) && s.len() <= 18
    }
}

/// The value an integer literal writes.
pub open spec fn int_value(s: Seq<char>) -> int {
    if s.len() > 0 && s[0] == '-' {
        -digits_val(s.drop_first())
    } else {
        digits_val(s)
    }
}

/// Parse a run of at most 18 decimal digits.
fn parse_digits(s: &str, start: usize) -> (r: Option<u64>)
    requires
        start <= s@.len(),
    ensures
        ({
            let d = s@.subrange(start as int, s@.len() as int);
            match r {
                Some(v) => all_digits(d) && d.len() <= 18 && v == digits_val(d),
                None => !(all_digits(d) && d.len() <= 18),
            }
        }),
{
    let n = s.unicode_len();
    if start == n || n - start > 18 {
        return None;
    }
    let ghost d = s@.subrange(start as int, s@.len() as int);
    let mut acc: u64 = 0;
    let mut i: usize = start;
    while i < n
        invariant
            n == s@.len(),
            start <= i <= n,
            n - start <= 18,
            d == s@.subrange(start as int, s@.len() as int),
            forall|j: int| start <= j < i ==> '0' <= #[trigger] s@[j] <= '9',
            acc == digits_val(s@.subrange(start as int, i as int)),
            acc < 1000000000000000000,
        decreases n - i,
    {
        let c = s.get_char(i);
        if c < '0' || c > '9' {
            proof {
                assert(d[i - start] == s@[i as int]);
            }
            return None;
        }
        proof {
            let prefix = s@.subrange(start as int, i as int);
            let next = s@.subrange(start as int, i as int + 1);
            assert(next.drop_last() =~= prefix);
            assert(next.last() == s@[i as int]);
            lemma_digits_val_bound(next);
            reveal_with_fuel(pow10, 20);
        }
        acc = acc * 10 + ((c as u8 - 48) as u64);
        i = i + 1;
    }
    proof {
        assert(s@.subrange(start as int, n as int) =~= d);
        assert forall|j: int| 0 <= j < d.len() implies '0' <= #[trigger] d[j] <= '9' by {
            assert(d[j] == s@[start + j]);
        }
    }
    Some(acc)
}

/// Parse an integer literal, if the text is one.
pub fn parse_int(s: &str) -> (r: Option<i64>)
    ensures
        match r {
            Some(v) => is_int_literal(s@) && v as int == int_value(s@),
            None => !is_int_literal(s@),
        },
{
    let n = s.unicode_len();
    if n > 0 && s.get_char(0) == '-' {
        let ghost d = s@.subrange(1, s@.len() as int);
        proof {
            assert(d =~= s@.drop_first());
        }
        match parse_digits(s, 1) {
            Some(v) => {
                proof {
                    lemma_digits_val_bound(d);
                    reveal_with_fuel(pow10, 20);
                }
                Some(-(v as i64))
            },
            None => None,
        }
    } else {
        let ghost d = s@.subrange(0, s@.len() as int);
        proof {
            assert(d =~= s@);
        }
        match parse_digits(s, 0) {
            Some(v) => {
                proof {
                    lemma_digits_val_bound(d);
                    reveal_with_fuel(pow10, 20);
                }
                Some(v as i64)
            },
            None => None,
        }
    }
}

/// The decimal digits of a number, most significant first.
pub open spec fn dec_digits(n: nat) -> Seq<char>
    decreases n,
{
    if n < 10 {
        seq![((n + 48) as u8) as char]
    } else {
        dec_digits(n / 10) + seq![((n % 10 + 48) as u8) as char]
    }
}

/// The text an integer writes in decimal.
pub open spec fn int_text(n: int) -> Seq<char> {
    if n < 0 {
        seq!['-'] + dec_digits((-n) as nat)
    } else {
        dec_digits(n as nat)
    }
}

/// Write a number in decimal.
fn dec_to_text(n: u64) -> (r: String)
    ensures
        r@ == dec_digits(n as nat),
    decreases n,
{
    if n < 10 {
        let mut s = String::new();
        push_char(&mut s, ((n as u8) + 48) as char);
        proof {
            assert(s@ =~= dec_digits(n as nat));
        }
        s
    } else {
        let mut s = dec_to_text(n / 10);
        push_char(&mut s, (((n % 10) as u8) + 48) as char);
        s
    }
}

/// Write an integer in decimal.
pub fn int_to_text(n: i64) -> (r: String)
    ensures
        r@ == int_text(n as int),
{
    if n >= 0 {
        dec_to_text(n as u64)
    } else {
        let mag: u64 = ((-(n as i128)) as u64);
        let digits = dec_to_text(mag);
        let mut s = String::new();
        push_char(&mut s, '-');
        let r = s.concat(digits.as_str());
        proof {
            assert(r@ =~= int_text(n as int));
        }
        r
    }
}

/// Whether `s` begins with `p`.
pub open spec fn starts_with_spec(s: Seq<char>, p: Seq<char>) -> bool {
    s.len() >= p.len() && s.subrange(0, p.len() as int) == p
}

/// Whether `s` begins with `p`.
pub fn starts_with(s: &str, p: &str) -> (r: bool)
    ensures
        r == starts_with_spec(s@, p@),
{
    let n = s.unicode_len();
    let m = p.unicode_len();
    if n < m {
        return false;
    }
    let mut i: usize = 0;
    while i < m
        invariant
            n == s@.len(),
            m == p@.len(),
            m <= n,
            i <= m,
            forall|j: int| 0 <= j < i ==> s@[j] == p@[j],
        decreases m - i,
    {
        if s.get_char(i) != p.get_char(i) {
            proof {
                assert(s@.subrange(0, p@.len() as int)[i as int] != p@[i as int]);
            }
            return false;
        }
        i = i + 1;
    }
    proof {
        assert(s@.subrange(0, p@.len() as int) =~= p@);
    }
    true
}

} // verus!
