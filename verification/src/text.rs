//! Character-level building blocks shared by the rest of the library:
//! hexadecimal and decimal renderings, and a few string constructors.
use vstd::prelude::*;

verus! {

/// The lower-case hexadecimal digit for a value below sixteen.
pub open spec fn hex_digit(n: int) -> char {
    if n == 0 { '0' }
    else if n == 1 { '1' }
    else if n == 2 { '2' }
    else if n == 3 { '3' }
    else if n == 4 { '4' }
    else if n == 5 { '5' }
    else if n == 6 { '6' }
    else if n == 7 { '7' }
    else if n == 8 { '8' }
    else if n == 9 { '9' }
    else if n == 10 { 'a' }
    else if n == 11 { 'b' }
    else if n == 12 { 'c' }
    else if n == 13 { 'd' }
    else if n == 14 { 'e' }
    else { 'f' }
}

/// The value of a lower-case hexadecimal digit, if the character is one.
pub open spec fn hex_value(c: char) -> Option<int> {
    if '0' <= c && c <= '9' {
        Some(c as int - '0' as int)
    } else if 'a' <= c && c <= 'f' {
        Some(c as int - 'a' as int + 10)
    } else {
        None
    }
}

/// Two lower-case hexadecimal digits per byte, most significant nibble first
/// (the `{:02x}` rendering of each byte, concatenated).
pub open spec fn hex_of(bytes: Seq<u8>) -> Seq<char>
    decreases bytes.len(),
{
    if bytes.len() == 0 {
        Seq::empty()
    } else {
        let b = bytes.last();
        hex_of(bytes.drop_last()).push(hex_digit(b as int / 16)).push(hex_digit(b as int % 16))
    }
}

/// The decimal digit for a value below ten.
pub open spec fn decimal_digit(n: int) -> char {
    if n == 0 { '0' }
    else if n == 1 { '1' }
    else if n == 2 { '2' }
    else if n == 3 { '3' }
    else if n == 4 { '4' }
    else if n == 5 { '5' }
    else if n == 6 { '6' }
    else if n == 7 { '7' }
    else if n == 8 { '8' }
    else { '9' }
}

/// The usual decimal rendering of a natural number (no leading zeros, "0" for zero).
pub open spec fn decimal(n: nat) -> Seq<char>
    decreases n,
{
    if n < 10 {
        seq![decimal_digit(n as int)]
    } else {
        decimal((n / 10) as nat).push(decimal_digit((n % 10) as int))
    }
}

/// Appends one character to a string (`String::push`).
#[verifier::external_body]
pub(crate) fn push_char(s: &mut String, c: char)
    ensures
        final(s)@ == old(s)@.push(c),
{
    s.push(c);
}

/// Makes an owned string out of a string slice.
pub fn owned(s: &str) -> (res: String)
    ensures
        res@ == s@,
{
    s.to_owned()
}

/// Appends a string slice to a string.
pub fn push_str(s: &mut String, other: &str)
    ensures
        final(s)@ == old(s)@ + other@,
{
    s.append(other);
}

/// The hexadecimal digit character of a nibble.
pub fn hex_digit_char(n: u8) -> (c: char)
    requires
        n < 16,
    ensures
        c == hex_digit(n as int),
{
    match n {
        0 => '0',
        1 => '1',
        2 => '2',
        3 => '3',
        4 => '4',
        5 => '5',
        6 => '6',
        7 => '7',
        8 => '8',
        9 => '9',
        10 => 'a',
        11 => 'b',
        12 => 'c',
        13 => 'd',
        14 => 'e',
        _ => 'f',
    }
}

/// The decimal digit character of a value below ten.
pub fn decimal_digit_char(n: u8) -> (c: char)
    requires
        n < 10,
    ensures
        c == decimal_digit(n as int),
{
    match n {
        0 => '0',
        1 => '1',
        2 => '2',
        3 => '3',
        4 => '4',
        5 => '5',
        6 => '6',
        7 => '7',
        8 => '8',
        _ => '9',
    }
}

/// Renders bytes as lower-case hexadecimal, two digits per byte.
pub fn bytes_to_hex(bytes: &[u8]) -> (res: String)
    ensures
        res@ == hex_of(bytes@),
{
    let mut res = String::new();
    let mut i: usize = 0;
    while i < bytes.len()
        invariant
            i <= bytes@.len(),
            res@ == hex_of(bytes@.take(i as int)),
        decreases bytes@.len() - i,
    {
        let b = bytes[i];
        push_char(&mut res, hex_digit_char(b / 16));
        push_char(&mut res, hex_digit_char(b % 16));
        assert(bytes@.take(i + 1).drop_last() =~= bytes@.take(i as int));
        i = i + 1;
    }
    assert(bytes@.take(bytes@.len() as int) =~= bytes@);
    res
}

/// Decimal rendering of an unsigned integer.
pub fn u64_to_decimal(n: u64) -> (res: String)
    ensures
        res@ == decimal(n as nat),
    decreases n,
{
    if n < 10 {
        let mut s = String::new();
        push_char(&mut s, decimal_digit_char(n as u8));
        s
    } else {
        let mut s = u64_to_decimal(n / 10);
        push_char(&mut s, decimal_digit_char((n % 10) as u8));
        s
    }
}

/// Appends the decimal rendering of an unsigned integer to a string.
pub fn push_decimal(s: &mut String, n: u64)
    ensures
        final(s)@ == old(s)@ + decimal(n as nat),
{
    let d = u64_to_decimal(n);
    push_str(s, d.as_str());
}

} // verus!

verus! {

/// The characters of a string slice, in order.
pub fn str_to_chars(s: &str) -> (v: Vec<char>)
    ensures
        v@ == s@,
{
    broadcast use vstd::string::group_string_axioms;
    let mut v: Vec<char> = Vec::new();
    for c in it: s.chars()
        invariant
            it.seq() == s@,
            v@ == it.seq().take(it.index()),
    {
        v.push(c);
    }
    v
}

} // verus!

verus! {

/// A string made of the given characters, in order.
pub fn chars_to_string(v: &[char]) -> (s: String)
    ensures
        s@ == v@,
{
    let mut s = String::new();
    let mut i: usize = 0;
    while i < v.len()
        invariant
            i <= v@.len(),
            s@ == v@.take(i as int),
        decreases v@.len() - i,
    {
        push_char(&mut s, v[i]);
        assert(v@.take(i + 1) =~= v@.take(i as int).push(v@[i as int]));
        i = i + 1;
    }
    assert(v@.take(v@.len() as int) =~= v@);
    s
}

/// Whether two character sequences are equal.
pub fn chars_equal(a: &[char], b: &[char]) -> (res: bool)
    ensures
        res == (a@ == b@),
{
    if a.len() != b.len() {
        return false;
    }
    let mut i: usize = 0;
    while i < a.len()
        invariant
            a@.len() == b@.len(),
            i <= a@.len(),
            forall|j: int| 0 <= j < i ==> a@[j] == b@[j],
        decreases a@.len() - i,
    {
        if a[i] != b[i] {
            return false;
        }
        i = i + 1;
    }
    assert(a@ =~= b@);
    true
}

/// Whether two string slices hold the same characters.
pub fn str_equals(a: &str, b: &str) -> (res: bool)
    ensures
        res == (a@ == b@),
{
    let va = str_to_chars(a);
    let vb = str_to_chars(b);
    chars_equal(va.as_slice(), vb.as_slice())
}

/// Whether `prefix` is a prefix of `s`.
pub open spec fn has_prefix(s: Seq<char>, prefix: Seq<char>) -> bool {
    prefix.len() <= s.len() && s.subrange(0, prefix.len() as int) == prefix
}

/// Whether a character sequence starts with a given prefix.
pub fn chars_start_with(s: &[char], prefix: &[char]) -> (res: bool)
    ensures
        res == has_prefix(s@, prefix@),
{
    if prefix.len() > s.len() {
        return false;
    }
    let mut i: usize = 0;
    while i < prefix.len()
        invariant
            prefix@.len() <= s@.len(),
            i <= prefix@.len(),
            forall|j: int| 0 <= j < i ==> s@[j] == prefix@[j],
        decreases prefix@.len() - i,
    {
        if s[i] != prefix[i] {
            assert(s@.subrange(0, prefix@.len() as int)[i as int] != prefix@[i as int]);
            return false;
        }
        i = i + 1;
    }
    assert(s@.subrange(0, prefix@.len() as int) =~= prefix@);
    true
}

/// Whether a string slice starts with a given prefix.
pub fn str_starts_with(s: &str, prefix: &str) -> (res: bool)
    ensures
        res == has_prefix(s@, prefix@),
{
    let vs = str_to_chars(s);
    let vp = str_to_chars(prefix);
    chars_start_with(vs.as_slice(), vp.as_slice())
}

} // verus!

verus! {

/// The index of the first occurrence of a character, or the length if it does not occur.
pub open spec fn first_index_of(s: Seq<char>, c: char) -> nat
    decreases s.len(),
{
    if s.len() == 0 {
        0
    } else if s[0] == c {
        0
    } else {
        1 + first_index_of(s.drop_first(), c)
    }
}

pub proof fn lemma_first_index_bound(s: Seq<char>, c: char)
    ensures
        first_index_of(s, c) <= s.len(),
        first_index_of(s, c) < s.len() ==> s[first_index_of(s, c) as int] == c,
        forall|j: int| 0 <= j < first_index_of(s, c) ==> s[j] != c,
    decreases s.len(),
{
    if s.len() > 0 && s[0] != c {
        lemma_first_index_bound(s.drop_first(), c);
        assert forall|j: int| 0 <= j < first_index_of(s, c) implies s[j] != c by {
            if j > 0 {
                assert(s[j] == s.drop_first()[j - 1]);
            }
        }
    }
}

pub proof fn lemma_first_index_of_concat(a: Seq<char>, b: Seq<char>, c: char)
    requires
        !a.contains(c),
    ensures
        first_index_of(a + b, c) == a.len() + first_index_of(b, c),
    decreases a.len(),
{
    if a.len() > 0 {
        assert((a + b).drop_first() =~= a.drop_first() + b);
        assert(!a.drop_first().contains(c)) by {
            if a.drop_first().contains(c) {
                let j = choose|j: int| 0 <= j < a.drop_first().len() && a.drop_first()[j] == c;
                assert(a[j + 1] == c);
            }
        }
        assert(a[0] != c) by {
            assert(a.contains(c) || a[0] != c);
        }
        lemma_first_index_of_concat(a.drop_first(), b, c);
    } else {
        assert(a + b =~= b);
    }
}

} // verus!

verus! {

/// `s` with every non-overlapping occurrence of `pat`, found from left to right,
/// replaced by `rep` (`str::replace`); an empty pattern occurs before each character
/// and at the end.
pub open spec fn replace_all(s: Seq<char>, pat: Seq<char>, rep: Seq<char>) -> Seq<char>
    decreases s.len(),
{
    if pat.len() == 0 {
        if s.len() == 0 {
            rep
        } else {
            rep + seq![s[0]] + replace_all(s.skip(1), pat, rep)
        }
    } else if s.len() < pat.len() {
        s
    } else if s.take(pat.len() as int) == pat {
        rep + replace_all(s.skip(pat.len() as int), pat, rep)
    } else {
        seq![s[0]] + replace_all(s.skip(1), pat, rep)
    }
}

/// The pieces of `s` between occurrences of `c` (`str::split` on a character):
/// always at least one piece.
pub open spec fn split_on(s: Seq<char>, c: char) -> Seq<Seq<char>>
    decreases s.len(),
{
    let i = first_index_of(s, c);
    if i >= s.len() {
        seq![s]
    } else {
        seq![s.take(i as int)] + split_on(s.skip(i + 1 as int), c)
    }
        // first_index_of(s, c) < s.len() here, so the recursion is on a shorter sequence
}

/// The views of a sequence of strings.
pub open spec fn views(v: Seq<String>) -> Seq<Seq<char>> {
    v.map_values(|s: String| s@)
}

proof fn lemma_replace_short(s: Seq<char>, pat: Seq<char>, rep: Seq<char>)
    requires
        pat.len() > 0,
        s.len() < pat.len(),
        s.len() > 0,
    ensures
        replace_all(s, pat, rep) == seq![s[0]] + replace_all(s.skip(1), pat, rep),
{
    assert(seq![s[0]] + s.skip(1) =~= s);
}

/// Replaces every occurrence of `pat` in `s` by `rep`, from left to right.
pub fn replace_str(s: &str, pat: &str, rep: &str) -> (res: String)
    ensures
        res@ == replace_all(s@, pat@, rep@),
{
    let sv = str_to_chars(s);
    let pv = str_to_chars(pat);
    let rv = str_to_chars(rep);
    let n = sv.len();
    let plen = pv.len();
    if plen == 0 {
        let mut out = String::new();
        let mut k: usize = 0;
        assert(sv@.skip(0) =~= sv@);
        while k < n
            invariant
                n == sv@.len(),
                pv@.len() == 0,
                pv@ == pat@,
                k <= n,
                sv@ == s@,
                rv@ == rep@,
                replace_all(s@, pat@, rep@) == out@ + replace_all(sv@.skip(k as int), pat@, rep@),
            decreases n - k,
        {
            proof {
                assert(sv@.skip(k as int).skip(1) =~= sv@.skip(k + 1));
                assert(sv@.skip(k as int)[0] == sv@[k as int]);
            }
            push_str(&mut out, rep);
            push_char(&mut out, sv[k]);
            k = k + 1;
        }
        push_str(&mut out, rep);
        assert(sv@.skip(n as int) =~= Seq::<char>::empty());
        return out;
    }
    let mut out: Vec<char> = Vec::new();
    let mut i: usize = 0;
    assert(sv@.skip(0) =~= sv@);
    assert(out@ + replace_all(sv@.skip(0), pat@, rep@) =~= replace_all(s@, pat@, rep@));
    while i < n
        invariant
            n == sv@.len(),
            plen == pv@.len(),
            plen > 0,
            i <= n,
            sv@ == s@,
            pv@ == pat@,
            rv@ == rep@,
            replace_all(s@, pat@, rep@) == out@ + replace_all(sv@.skip(i as int), pat@, rep@),
        decreases n - i,
    {
        let ghost rest = sv@.skip(i as int);
        let mut matched = false;
        if plen <= n - i {
            matched = true;
            let mut j: usize = 0;
            while j < plen
                invariant
                    plen == pv@.len(),
                    n == sv@.len(),
                    i + plen <= n,
                    j <= plen,
                    matched == (forall|q: int| 0 <= q < j ==> sv@[i + q] == pv@[q]),
                decreases plen - j,
            {
                if sv[i + j] != pv[j] {
                    matched = false;
                }
                j = j + 1;
            }
            assert(matched == (rest.take(plen as int) == pv@)) by {
                if matched {
                    assert(rest.take(plen as int) =~= pv@);
                } else {
                    let q = choose|q: int| 0 <= q < plen && !(sv@[i + q] == pv@[q]);
                    assert(rest.take(plen as int)[q] != pv@[q]);
                }
            }
        }
        if matched {
            let ghost out0 = out@;
            let mut k: usize = 0;
            while k < rv.len()
                invariant
                    k <= rv@.len(),
                    out@ == out0 + rv@.take(k as int),
                decreases rv@.len() - k,
            {
                out.push(rv[k]);
                assert(rv@.take(k + 1) =~= rv@.take(k as int).push(rv@[k as int]));
                k = k + 1;
            }
            assert(rv@.take(rv@.len() as int) =~= rv@);
            assert(rest.skip(plen as int) =~= sv@.skip(i + plen));
            i = i + plen;
        } else {
            proof {
                if rest.len() < plen {
                    lemma_replace_short(rest, pat@, rep@);
                }
            }
            out.push(sv[i]);
            assert(rest.skip(1) =~= sv@.skip(i + 1));
            i = i + 1;
        }
    }
    assert(sv@.skip(n as int) =~= Seq::<char>::empty());
    assert(out@ + replace_all(sv@.skip(n as int), pat@, rep@) =~= out@);
    chars_to_string(out.as_slice())
}

} // verus!

verus! {

proof fn lemma_split_step(cur: Seq<char>, rest: Seq<char>, c: char)
    requires
        !cur.contains(c),
        rest.len() > 0,
    ensures
        rest[0] == c ==> split_on(cur + rest, c) == seq![cur] + split_on(rest.skip(1), c),
        rest[0] != c ==> cur + rest == cur.push(rest[0]) + rest.skip(1) && !cur.push(rest[0]).contains(c),
{
    lemma_first_index_of_concat(cur, rest, c);
    if rest[0] == c {
        let s = cur + rest;
        assert(first_index_of(rest, c) == 0);
        assert(s.take(cur.len() as int) =~= cur);
        assert(s.skip(cur.len() + 1 as int) =~= rest.skip(1));
    } else {
        assert(cur + rest =~= cur.push(rest[0]) + rest.skip(1));
        assert(!cur.push(rest[0]).contains(c)) by {
            if cur.push(rest[0]).contains(c) {
                let j = choose|j: int| 0 <= j < cur.push(rest[0]).len() && cur.push(rest[0])[j] == c;
                if j < cur.len() {
                    assert(cur[j] == c);
                }
            }
        }
    }
}

proof fn lemma_split_last(cur: Seq<char>, c: char)
    requires
        !cur.contains(c),
    ensures
        split_on(cur, c) == seq![cur],
{
    lemma_first_index_of_concat(cur, Seq::empty(), c);
    assert(cur + Seq::<char>::empty() =~= cur);
}

/// Splits a string on a character (`str::split`).
pub fn split_chars(s: &str, c: char) -> (res: Vec<String>)
    ensures
        views(res@) == split_on(s@, c),
        res@.len() >= 1,
{
    let sv = str_to_chars(s);
    let mut pieces: Vec<String> = Vec::new();
    let mut cur: Vec<char> = Vec::new();
    let mut i: usize = 0;
    assert(cur@ + sv@.skip(0) =~= s@);
    while i < sv.len()
        invariant
            i <= sv@.len(),
            sv@ == s@,
            !cur@.contains(c),
            split_on(s@, c) == views(pieces@) + split_on(cur@ + sv@.skip(i as int), c),
        decreases sv@.len() - i,
    {
        let ghost rest = sv@.skip(i as int);
        proof {
            lemma_split_step(cur@, rest, c);
            assert(rest.skip(1) =~= sv@.skip(i + 1));
        }
        if sv[i] == c {
            let piece = chars_to_string(cur.as_slice());
            let ghost old_pieces = pieces@;
            pieces.push(piece);
            assert(views(pieces@) =~= views(old_pieces) + seq![cur@]);
            cur = Vec::new();
            assert(cur@ + sv@.skip(i + 1) =~= sv@.skip(i + 1));
        } else {
            cur.push(sv[i]);
        }
        i = i + 1;
    }
    proof {
        assert(cur@ + sv@.skip(i as int) =~= cur@);
        lemma_split_last(cur@, c);
    }
    let last = chars_to_string(cur.as_slice());
    let ghost old_pieces = pieces@;
    pieces.push(last);
    assert(views(pieces@) =~= views(old_pieces) + seq![cur@]);
    pieces
}


/// The last piece of splitting a text on a character is the text's end after the
/// last occurrence of the character: a suffix of the text that holds no such
/// character, which is the whole text or follows an occurrence of it.
pub proof fn lemma_split_last_suffix(s: Seq<char>, c: char)
    ensures
        split_on(s, c).len() > 0,
        ({
            let r = split_on(s, c).last();
            &&& r.len() <= s.len()
            &&& r == s.skip(s.len() - r.len())
            &&& !r.contains(c)
            &&& (r.len() == s.len() || s[s.len() - r.len() - 1] == c)
        }),
    decreases s.len(),
{
    lemma_first_index_bound(s, c);
    let i = first_index_of(s, c);
    if i >= s.len() {
        assert(s.skip(0) =~= s);
        assert(!s.contains(c)) by {
            if s.contains(c) {
                let j = choose|j: int| 0 <= j < s.len() && s[j] == c;
                assert(s[j] != c);
            }
        }
    } else {
        let t = s.skip(i + 1 as int);
        lemma_split_last_suffix(t, c);
        let r = split_on(t, c).last();
        assert(split_on(s, c) == seq![s.take(i as int)] + split_on(t, c));
        assert(split_on(s, c).last() == r);
        assert(t.skip(t.len() - r.len()) =~= s.skip(s.len() - r.len()));
        if r.len() == t.len() {
            assert(s[s.len() - r.len() - 1] == s[i as int]);
        } else {
            assert(s[s.len() - r.len() - 1] == t[t.len() - r.len() - 1]);
        }
    }
}

} // verus!
