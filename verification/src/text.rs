//! Verified helpers over text: the byte-wise order of strings, ASCII case
//! folding, and the construction of strings from pieces.

use vstd::prelude::*;
use vstd::string::StringExecFns;
use vstd::utf8::encode_utf8;

verus! {

/// `String::push` puts the character behind the last one of the string and
/// changes nothing else.
pub assume_specification[ String::push ](s: &mut String, ch: char)
    ensures
        final(s)@ == old(s)@.push(ch),
;

/// The characters of `s` from `from` up to `to` as a string.
pub fn collect(s: &Vec<char>, from: usize, to: usize) -> (r: String)
    requires
        from <= to <= s.len(),
    ensures
        r@ == s@.subrange(from as int, to as int),
{
    let mut r = String::new();
    let mut i = from;
    while i < to
        invariant
            from <= i <= to <= s.len(),
            r@ == s@.subrange(from as int, i as int),
        decreases to - i,
    {
        r.push(s[i]);
        proof {
            assert(s@.subrange(from as int, i + 1) =~= s@.subrange(from as int, i as int).push(s@[i as int]));
        }
        i += 1;
    }
    r
}

/// `a` and `b` agree on their first `k` elements.
pub open spec fn common_prefix(a: Seq<u8>, b: Seq<u8>, k: int) -> bool {
    &&& 0 <= k <= a.len()
    &&& k <= b.len()
    &&& forall|i: int| 0 <= i < k ==> a[i] == b[i]
}

/// `a` sorts strictly before `b` at position `k`: the two agree before `k`,
/// and there `a` ends or holds the smaller byte.
pub open spec fn bytes_lt_at(a: Seq<u8>, b: Seq<u8>, k: int) -> bool {
    &&& common_prefix(a, b, k)
    &&& k < b.len()
    &&& k == a.len() || (k < a.len() && a[k] < b[k])
}

/// Strict lexicographic order on byte sequences.
pub open spec fn bytes_lt(a: Seq<u8>, b: Seq<u8>) -> bool {
    exists|k: int| bytes_lt_at(a, b, k)
}

/// The order of strings: lexicographic by the bytes of their UTF-8 encoding.
pub open spec fn text_lt(a: Seq<char>, b: Seq<char>) -> bool {
    bytes_lt(encode_utf8(a), encode_utf8(b))
}

/// The byte order is irreflexive.
pub proof fn lemma_bytes_lt_irreflexive(a: Seq<u8>)
    ensures
        !bytes_lt(a, a),
{
}

/// The byte order is transitive.
pub proof fn lemma_bytes_lt_transitive(a: Seq<u8>, b: Seq<u8>, c: Seq<u8>)
    requires
        bytes_lt(a, b),
        bytes_lt(b, c),
    ensures
        bytes_lt(a, c),
{
    let k1 = choose|k: int| bytes_lt_at(a, b, k);
    let k2 = choose|k: int| bytes_lt_at(b, c, k);
    let k = if k1 <= k2 { k1 } else { k2 };
    assert(bytes_lt_at(a, c, k));
}

/// Two byte sequences are equal, or one sorts before the other.
pub proof fn lemma_bytes_lt_total(a: Seq<u8>, b: Seq<u8>)
    ensures
        a == b || bytes_lt(a, b) || bytes_lt(b, a),
    decreases a.len() + b.len(),
{
    lemma_first_difference(a, b, 0);
}

proof fn lemma_first_difference(a: Seq<u8>, b: Seq<u8>, k: int)
    requires
        common_prefix(a, b, k),
    ensures
        a == b || bytes_lt(a, b) || bytes_lt(b, a),
    decreases a.len() - k,
{
    if k == a.len() {
        if k == b.len() {
            assert(a =~= b);
        } else {
            assert(bytes_lt_at(a, b, k));
        }
    } else if k == b.len() {
        assert(common_prefix(b, a, k));
        assert(bytes_lt_at(b, a, k));
    } else if a[k] < b[k] {
        assert(bytes_lt_at(a, b, k));
    } else if b[k] < a[k] {
        assert(common_prefix(b, a, k));
        assert(bytes_lt_at(b, a, k));
    } else {
        lemma_first_difference(a, b, k + 1);
    }
}

/// Two strings are equal, or one sorts before the other.
pub proof fn lemma_text_lt_total(a: Seq<char>, b: Seq<char>)
    ensures
        a == b || text_lt(a, b) || text_lt(b, a),
{
    lemma_bytes_lt_total(encode_utf8(a), encode_utf8(b));
    vstd::utf8::encode_utf8_decode_utf8(a);
    vstd::utf8::encode_utf8_decode_utf8(b);
}

/// Compares two byte slices lexicographically.
pub fn slice_lt(a: &[u8], b: &[u8]) -> (r: bool)
    ensures
        r == bytes_lt(a@, b@),
{
    let mut i: usize = 0;
    while i < a.len() && i < b.len()
        invariant
            common_prefix(a@, b@, i as int),
        decreases a.len() - i,
    {
        if a[i] != b[i] {
            let r = a[i] < b[i];
            proof {
                if r {
                    assert(bytes_lt_at(a@, b@, i as int));
                } else {
                    assert forall|k: int| !bytes_lt_at(a@, b@, k) by {
                        if k > i {
                            assert(a@[i as int] != b@[i as int]);
                        }
                    }
                }
            }
            return r;
        }
        i += 1;
    }
    let r = a.len() < b.len();
    proof {
        if r {
            assert(bytes_lt_at(a@, b@, i as int));
        } else {
            assert forall|k: int| !bytes_lt_at(a@, b@, k) by {
            }
        }
    }
    r
}

/// Compares two strings by the order of [`text_lt`].
pub fn string_lt(a: &String, b: &String) -> (r: bool)
    ensures
        r == text_lt(a@, b@),
{
    slice_lt(a.as_str().as_bytes(), b.as_str().as_bytes())
}

/// A copy of `a` with a dot and `b` behind it.
pub fn dotted(a: &String, b: &String) -> (r: String)
    ensures
        r@ == a@ + seq!['.'] + b@,
{
    proof {
        reveal_strlit(".");
        assert("."@ =~= seq!['.']);
    }
    let mut r = a.clone();
    r.append(".");
    r.append(b.as_str());
    r
}

/// The lower-case form of an ASCII capital letter; any other character
/// itself.
pub open spec fn ascii_lower(c: char) -> char {
    if 'A' <= c && c <= 'Z' {
        ((c as u8) + 32) as char
    } else {
        c
    }
}

/// `s` with its ASCII capital letters in lower case.
pub open spec fn ascii_lowercase(s: Seq<char>) -> Seq<char> {
    s.map_values(|c: char| ascii_lower(c))
}

/// The two texts are equal but for the case of their ASCII letters.
pub open spec fn eq_ignore_case(a: Seq<char>, b: Seq<char>) -> bool {
    ascii_lowercase(a) == ascii_lowercase(b)
}

/// The lower-case form of an ASCII capital letter; any other character
/// itself.
pub fn lower(c: char) -> (r: char)
    ensures
        r == ascii_lower(c),
{
    if 'A' <= c && c <= 'Z' {
        ((c as u8) + 32) as char
    } else {
        c
    }
}

/// The characters of a string.
pub fn chars_of(s: &str) -> (v: Vec<char>)
    ensures
        v@ == s@,
{
    let mut v: Vec<char> = Vec::new();
    for c in it: s.chars()
        invariant
            v@ == it.seq().take(it.index@),
    {
        v.push(c);
    }
    v
}

/// Whether two lists of characters are equal but for the case of their ASCII
/// letters.
pub fn chars_eq_ignore_case(a: &Vec<char>, b: &Vec<char>) -> (r: bool)
    ensures
        r == eq_ignore_case(a@, b@),
{
    if a.len() != b.len() {
        assert(ascii_lowercase(a@).len() != ascii_lowercase(b@).len());
        return false;
    }
    let mut i: usize = 0;
    while i < a.len()
        invariant
            i <= a.len(),
            a.len() == b.len(),
            forall|k: int| 0 <= k < i ==> ascii_lower(a@[k]) == ascii_lower(b@[k]),
        decreases a.len() - i,
    {
        if lower(a[i]) != lower(b[i]) {
            assert(ascii_lowercase(a@)[i as int] != ascii_lowercase(b@)[i as int]);
            return false;
        }
        i += 1;
    }
    assert(ascii_lowercase(a@) =~= ascii_lowercase(b@));
    true
}

/// Whether two strings are equal but for the case of their ASCII letters.
pub fn eq_ignore_ascii_case(a: &str, b: &str) -> (r: bool)
    ensures
        r == eq_ignore_case(a@, b@),
{
    let x = chars_of(a);
    let y = chars_of(b);
    chars_eq_ignore_case(&x, &y)
}

/// The texts `parts` in a row, with `sep` between each two.
pub open spec fn join_spec(parts: Seq<Seq<char>>, sep: Seq<char>) -> Seq<char>
    decreases parts.len(),
{
    if parts.len() == 0 {
        Seq::empty()
    } else if parts.len() == 1 {
        parts[0]
    } else {
        join_spec(parts.drop_last(), sep) + sep + parts.last()
    }
}

/// The views of a list of strings.
pub open spec fn views(parts: Seq<String>) -> Seq<Seq<char>> {
    parts.map_values(|s: String| s@)
}

/// The strings `parts` in a row, with `sep` between each two.
pub fn join(parts: &Vec<String>, sep: &str) -> (r: String)
    ensures
        r@ == join_spec(views(parts@), sep@),
{
    let mut r = String::new();
    let mut i: usize = 0;
    while i < parts.len()
        invariant
            i <= parts.len(),
            r@ == join_spec(views(parts@).take(i as int), sep@),
        decreases parts.len() - i,
    {
        proof {
            assert(views(parts@).take(i + 1).drop_last() =~= views(parts@).take(i as int));
            assert(views(parts@).take(i + 1).last() == parts@[i as int]@);
        }
        if i > 0 {
            r.append(sep);
        } else {
            assert(r@ + parts@[i as int]@ =~= parts@[i as int]@);
        }
        r.append(parts[i].as_str());
        i += 1;
    }
    proof {
        assert(views(parts@).take(i as int) =~= views(parts@));
    }
    r
}

/// Whether the character is white space: a blank, a tab, a line feed, a
/// vertical tab, a form feed or a carriage return.
pub open spec fn is_ws(c: char) -> bool {
    c == ' ' || c == '\t' || c == '\n' || c == '\r' || c == '\x0b' || c == '\x0c'
}

/// Whether the character is white space.
pub fn is_space(c: char) -> (r: bool)
    ensures
        r == is_ws(c),
{
    c == ' ' || c == '\t' || c == '\n' || c == '\r' || c == '\x0b' || c == '\x0c'
}

/// `s` without the white space at its ends, and with one blank for each
/// run of white space within it.
pub open spec fn normalize_ws(s: Seq<char>) -> Seq<char>
    decreases s.len(),
{
    if s.len() == 0 {
        Seq::empty()
    } else {
        let rest = normalize_ws(s.drop_last());
        let c = s.last();
        if is_ws(c) {
            rest
        } else if rest.len() > 0 && is_ws(s[s.len() - 2]) {
            rest.push(' ').push(c)
        } else {
            rest.push(c)
        }
    }
}

/// The characters of `s` without the white space at its ends, and with one
/// blank for each run of white space within it.
pub fn normalized(s: &Vec<char>) -> (r: Vec<char>)
    ensures
        r@ == normalize_ws(s@),
{
    let mut r: Vec<char> = Vec::new();
    let mut i: usize = 0;
    while i < s.len()
        invariant
            i <= s.len(),
            r@ == normalize_ws(s@.take(i as int)),
        decreases s.len() - i,
    {
        proof {
            assert(s@.take(i + 1).drop_last() =~= s@.take(i as int));
        }
        let c = s[i];
        if !is_space(c) {
            if r.len() > 0 && is_space(s[i - 1]) {
                r.push(' ');
            }
            r.push(c);
        }
        i += 1;
    }
    proof {
        assert(s@.take(i as int) =~= s@);
    }
    r
}

/// The number of white space characters at the start of `s`.
pub open spec fn leading_ws(s: Seq<char>) -> nat
    decreases s.len(),
{
    if s.len() > 0 && is_ws(s[0]) {
        1 + leading_ws(s.drop_first())
    } else {
        0
    }
}

/// The number of white space characters at the end of `s`.
pub open spec fn trailing_ws(s: Seq<char>) -> nat
    decreases s.len(),
{
    if s.len() > 0 && is_ws(s.last()) {
        1 + trailing_ws(s.drop_last())
    } else {
        0
    }
}

/// `s` without the white space at its ends.
pub open spec fn trim_spec(s: Seq<char>) -> Seq<char> {
    if leading_ws(s) == s.len() {
        Seq::empty()
    } else {
        s.subrange(leading_ws(s) as int, s.len() - trailing_ws(s))
    }
}

proof fn lemma_leading_ws(s: Seq<char>, k: int)
    requires
        0 <= k <= s.len(),
        forall|i: int| 0 <= i < k ==> is_ws(s[i]),
        k < s.len() ==> !is_ws(s[k]),
    ensures
        leading_ws(s) == k,
    decreases k,
{
    if k > 0 {
        lemma_leading_ws(s.drop_first(), k - 1);
    }
}

proof fn lemma_trailing_ws(s: Seq<char>, k: int)
    requires
        0 <= k <= s.len(),
        forall|i: int| s.len() - k <= i < s.len() ==> is_ws(s[i]),
        k < s.len() ==> !is_ws(s[s.len() - k - 1]),
    ensures
        trailing_ws(s) == k,
    decreases k,
{
    if k > 0 {
        lemma_trailing_ws(s.drop_last(), k - 1);
    }
}

/// The characters of `s` without the white space at its ends.
pub fn trimmed(s: &Vec<char>) -> (r: Vec<char>)
    ensures
        r@ == trim_spec(s@),
{
    let mut start: usize = 0;
    while start < s.len() && is_space(s[start])
        invariant
            start <= s.len(),
            forall|i: int| 0 <= i < start ==> is_ws(s@[i]),
        decreases s.len() - start,
    {
        start += 1;
    }
    proof {
        lemma_leading_ws(s@, start as int);
    }
    let mut r: Vec<char> = Vec::new();
    if start == s.len() {
        return r;
    }
    let mut end: usize = s.len();
    while end > start && is_space(s[end - 1])
        invariant
            start < s.len(),
            !is_ws(s@[start as int]),
            start <= end <= s.len(),
            forall|i: int| end <= i < s.len() ==> is_ws(s@[i]),
        decreases end,
    {
        end -= 1;
    }
    proof {
        lemma_trailing_ws(s@, s.len() - end);
    }
    let mut i: usize = start;
    while i < end
        invariant
            start <= i <= end <= s.len(),
            r@ == s@.subrange(start as int, i as int),
        decreases end - i,
    {
        r.push(s[i]);
        proof {
            assert(s@.subrange(start as int, i + 1) =~= s@.subrange(start as int, i as int).push(
                s@[i as int],
            ));
        }
        i += 1;
    }
    r
}

/// Whether two lists of characters are equal.
pub fn chars_eq(a: &Vec<char>, b: &Vec<char>) -> (r: bool)
    ensures
        r == (a@ == b@),
{
    if a.len() != b.len() {
        return false;
    }
    let mut i: usize = 0;
    while i < a.len()
        invariant
            i <= a.len(),
            a.len() == b.len(),
            forall|k: int| 0 <= k < i ==> a@[k] == b@[k],
        decreases a.len() - i,
    {
        if a[i] != b[i] {
            return false;
        }
        i += 1;
    }
    assert(a@ =~= b@);
    true
}

/// Whether two strings are equal once white space is normalized.
pub fn ws_equal(a: &str, b: &str) -> (r: bool)
    ensures
        r == (normalize_ws(a@) == normalize_ws(b@)),
{
    let x = normalized(&chars_of(a));
    let y = normalized(&chars_of(b));
    chars_eq(&x, &y)
}

/// Whether two strings are equal once the white space at their ends is cut
/// off.
pub fn trim_equal(a: &str, b: &str) -> (r: bool)
    ensures
        r == (trim_spec(a@) == trim_spec(b@)),
{
    let x = trimmed(&chars_of(a));
    let y = trimmed(&chars_of(b));
    chars_eq(&x, &y)
}

/// The canonical form of the name of a built-in type: white space
/// normalized, letters in lower case, and `int` and `bool` written out.
pub open spec fn canonical_type(s: Seq<char>) -> Seq<char> {
    let t = ascii_lowercase(normalize_ws(s));
    if t == seq!['i', 'n', 't'] {
        seq!['i', 'n', 't', 'e', 'g', 'e', 'r']
    } else if t == seq!['b', 'o', 'o', 'l'] {
        seq!['b', 'o', 'o', 'l', 'e', 'a', 'n']
    } else {
        t
    }
}

/// The canonical form of the name of a built-in type.
pub fn canonical(s: &str) -> (r: Vec<char>)
    ensures
        r@ == canonical_type(s@),
{
    let n = normalized(&chars_of(s));
    let mut t: Vec<char> = Vec::new();
    let mut i: usize = 0;
    while i < n.len()
        invariant
            i <= n.len(),
            t@ == ascii_lowercase(n@.take(i as int)),
        decreases n.len() - i,
    {
        t.push(lower(n[i]));
        proof {
            assert(t@ =~= ascii_lowercase(n@.take(i + 1)));
        }
        i += 1;
    }
    proof {
        assert(n@.take(i as int) =~= n@);
    }
    if t.len() == 3 && t[0] == 'i' && t[1] == 'n' && t[2] == 't' {
        assert(t@ =~= seq!['i', 'n', 't']);
        vec!['i', 'n', 't', 'e', 'g', 'e', 'r']
    } else if t.len() == 4 && t[0] == 'b' && t[1] == 'o' && t[2] == 'o' && t[3] == 'l' {
        assert(t@ =~= seq!['b', 'o', 'o', 'l']);
        vec!['b', 'o', 'o', 'l', 'e', 'a', 'n']
    } else {
        t
    }
}

/// The character of the decimal digit `d`.
pub open spec fn digit_char(d: nat) -> char {
    ((48 + d) as u8) as char
}

/// The number `n` in decimal digits.
pub open spec fn decimal(n: nat) -> Seq<char>
    decreases n,
{
    if n < 10 {
        seq![digit_char(n)]
    } else {
        decimal(n / 10).push(digit_char(n % 10))
    }
}

/// Appends the number `n` in decimal digits.
pub fn push_decimal(s: &mut String, n: usize)
    ensures
        final(s)@ == old(s)@ + decimal(n as nat),
    decreases n,
{
    if n >= 10 {
        push_decimal(s, n / 10);
    }
    let d: u8 = (n % 10) as u8;
    s.push((48 + d) as char);
    proof {
        if n >= 10 {
            assert(s@ =~= old(s)@ + decimal(n as nat));
        } else {
            assert(s@ =~= old(s)@ + decimal(n as nat));
        }
    }
}

/// The character `c`, `n` times.
pub open spec fn repeated(c: char, n: nat) -> Seq<char> {
    Seq::new(n, |i: int| c)
}

/// Appends the character `c`, `n` times.
pub fn push_repeated(s: &mut String, c: char, n: usize)
    ensures
        final(s)@ == old(s)@ + repeated(c, n as nat),
{
    let mut i: usize = 0;
    assert(s@ =~= old(s)@ + repeated(c, 0));
    while i < n
        invariant
            i <= n,
            s@ == old(s)@ + repeated(c, i as nat),
        decreases n - i,
    {
        s.push(c);
        proof {
            assert(s@ =~= old(s)@ + repeated(c, (i + 1) as nat));
        }
        i += 1;
    }
}

/// The pieces of `s` between the occurrences of `sep`: one more than there
/// are occurrences.
pub open spec fn split_spec(s: Seq<char>, sep: char) -> Seq<Seq<char>>
    decreases s.len(),
{
    if s.len() == 0 {
        seq![Seq::empty()]
    } else {
        let rest = split_spec(s.drop_last(), sep);
        if s.last() == sep {
            rest.push(Seq::empty())
        } else {
            rest.drop_last().push(rest.last().push(s.last()))
        }
    }
}

/// The views of a list of lists of characters.
pub open spec fn char_views(parts: Seq<Vec<char>>) -> Seq<Seq<char>> {
    parts.map_values(|p: Vec<char>| p@)
}

/// The pieces of `s` between the occurrences of `sep`.
pub fn split(s: &Vec<char>, sep: char) -> (parts: Vec<Vec<char>>)
    ensures
        char_views(parts@) == split_spec(s@, sep),
        parts.len() >= 1,
{
    let mut parts: Vec<Vec<char>> = Vec::new();
    let mut current: Vec<char> = Vec::new();
    let mut i: usize = 0;
    assert(char_views(parts@).push(current@) =~= split_spec(s@.take(0), sep));
    while i < s.len()
        invariant
            i <= s.len(),
            char_views(parts@).push(current@) == split_spec(s@.take(i as int), sep),
        decreases s.len() - i,
    {
        let ghost before = char_views(parts@);
        let ghost piece = current@;
        proof {
            assert(s@.take(i + 1).drop_last() =~= s@.take(i as int));
            assert(before.push(piece).drop_last() =~= before);
        }
        if s[i] == sep {
            parts.push(current);
            current = Vec::new();
            proof {
                assert(char_views(parts@) =~= before.push(piece));
            }
        } else {
            current.push(s[i]);
            proof {
                assert(char_views(parts@).push(current@) =~= split_spec(s@.take(i + 1), sep));
            }
        }
        i += 1;
    }
    proof {
        assert(s@.take(i as int) =~= s@);
    }
    let ghost before = char_views(parts@);
    let ghost piece = current@;
    parts.push(current);
    proof {
        assert(char_views(parts@) =~= before.push(piece));
    }
    parts
}

/// Appends the characters `chars`.
pub fn push_chars(s: &mut String, chars: &Vec<char>)
    ensures
        final(s)@ == old(s)@ + chars@,
{
    let mut i: usize = 0;
    assert(s@ =~= old(s)@ + chars@.take(0));
    while i < chars.len()
        invariant
            i <= chars.len(),
            s@ == old(s)@ + chars@.take(i as int),
        decreases chars.len() - i,
    {
        s.push(chars[i]);
        proof {
            assert(s@ =~= old(s)@ + chars@.take(i + 1));
        }
        i += 1;
    }
    proof {
        assert(chars@.take(i as int) =~= chars@);
    }
}

/// The number `n` in decimal digits, with a minus sign before it if it is
/// negative.
pub open spec fn signed_decimal(n: int) -> Seq<char> {
    if n < 0 {
        seq!['-'] + decimal((-n) as nat)
    } else {
        decimal(n as nat)
    }
}

/// Appends the number `n` in decimal digits, with a minus sign before it
/// if it is negative.
pub fn push_signed(s: &mut String, n: i32)
    ensures
        final(s)@ == old(s)@ + signed_decimal(n as int),
{
    if n < 0 {
        s.push('-');
        let m: i64 = -(n as i64);
        push_decimal(s, m as usize);
        proof {
            assert(s@ =~= old(s)@ + signed_decimal(n as int));
        }
    } else {
        push_decimal(s, n as usize);
    }
}

} // verus!
