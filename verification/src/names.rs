//! Names of directory entries: which characters they may hold, how they are
//! ordered, and how a hierarchical folder name falls into segments.

use vstd::prelude::*;
use vstd::utf8::encode_utf8;

verus! {

/// `String::push` of std appends one character to the end of the string.
pub assume_specification[ String::push ](s: &mut String, ch: char)
    ensures
        final(s)@ == old(s)@.push(ch),
;

/// Whether `c` may not occur in the name of a directory entry.
pub open spec fn is_prohibited(c: char) -> bool {
    c == '/' || c == '\\' || c == '?' || c == '%' || c == '*' || c == ':' || c == '|' || c == '"'
        || c == '<' || c == '>' || c == '.'
}

/// Whether no character of `s` is prohibited.
pub open spec fn is_sanitized(s: Seq<char>) -> bool {
    forall|i: int| 0 <= i < s.len() ==> !is_prohibited(#[trigger] s[i])
}

/// `s` without its prohibited characters, the others in their order.
pub open spec fn sanitized(s: Seq<char>) -> Seq<char> {
    s.filter(|c: char| !is_prohibited(c))
}

/// Decides whether `c` may not occur in the name of a directory entry.
pub fn prohibited(c: char) -> (r: bool)
    ensures
        r == is_prohibited(c),
{
    c == '/' || c == '\\' || c == '?' || c == '%' || c == '*' || c == ':' || c == '|' || c == '"'
        || c == '<' || c == '>' || c == '.'
}

/// The characters of `s`, in their order.
pub fn to_chars(s: &str) -> (r: Vec<char>)
    ensures
        r@ == s@,
{
    let mut out: Vec<char> = Vec::new();
    for c in it: s.chars()
        invariant
            out@ == s@.take(it.index() as int),
            it.seq() == s@,
    {
        out.push(c);
    }
    out
}

/// Strips the prohibited characters from `name`, so that the result can stand
/// as one path component and cannot lead out of its directory.
pub fn sanitize_name(name: &str) -> (r: String)
    ensures
        r@ == sanitized(name@),
        is_sanitized(r@),
{
    let chars = to_chars(name);
    let mut out = String::new();
    let mut i: usize = 0;
    while i < chars.len()
        invariant
            i <= chars.len(),
            out@ == sanitized(chars@.take(i as int)),
        decreases chars.len() - i,
    {
        let c = chars[i];
        proof {
            let before = chars@.take(i as int);
            let after = chars@.take(i as int + 1);
            assert(after.drop_last() == before);
            assert(after.last() == c);
            reveal_with_fuel(Seq::filter, 2);
        }
        if !prohibited(c) {
            out.push(c);
        }
        i += 1;
    }
    proof {
        assert(chars@.take(i as int) == chars@);
        lemma_sanitized_is_sanitized(name@);
    }
    out
}

/// What `sanitized` returns holds no prohibited character.
pub proof fn lemma_sanitized_is_sanitized(s: Seq<char>)
    ensures
        is_sanitized(sanitized(s)),
{
    let keep = |c: char| !is_prohibited(c);
    let out = s.filter(keep);
    assert forall|i: int| 0 <= i < out.len() implies !is_prohibited(#[trigger] out[i]) by {
        s.lemma_filter_pred(keep, i);
    }
}

/// A name without prohibited characters is left as it is.
pub proof fn lemma_sanitized_fixed(s: Seq<char>)
    requires
        is_sanitized(s),
    ensures
        sanitized(s) == s,
    decreases s.len(),
{
    reveal_with_fuel(Seq::filter, 2);
    if s.len() > 0 {
        lemma_sanitized_fixed(s.drop_last());
        assert(s.drop_last().push(s.last()) == s);
    }
}

/// Sanitizing twice is sanitizing once.
pub proof fn lemma_sanitized_idempotent(s: Seq<char>)
    ensures
        sanitized(sanitized(s)) == sanitized(s),
{
    lemma_sanitized_is_sanitized(s);
    lemma_sanitized_fixed(sanitized(s));
}

/// Whether `a` comes before `b` when both are read from position `i` on,
/// byte by byte, the shorter first where one is the start of the other.
pub open spec fn bytes_before_from(a: Seq<u8>, b: Seq<u8>, i: int) -> bool
    decreases b.len() - i,
{
    if i < 0 || i >= b.len() {
        false
    } else if i >= a.len() {
        true
    } else if a[i] != b[i] {
        a[i] < b[i]
    } else {
        bytes_before_from(a, b, i + 1)
    }
}

/// The order of names: that of their UTF-8 encodings, byte by byte. This is
/// the order in which a directory lists its children.
pub open spec fn name_before(a: Seq<char>, b: Seq<char>) -> bool {
    bytes_before_from(encode_utf8(a), encode_utf8(b), 0)
}

/// Where one name stands relative to another.
#[derive(Clone, Copy, PartialEq, Eq, Debug, Structural)]
pub enum Rank {
    Before,
    Same,
    After,
}

/// From position `i` on, no byte sequence comes before itself.
pub proof fn lemma_bytes_before_irreflexive(a: Seq<u8>, i: int)
    ensures
        !bytes_before_from(a, a, i),
    decreases a.len() - i,
{
    if 0 <= i < a.len() {
        lemma_bytes_before_irreflexive(a, i + 1);
    }
}

/// From position `i` on, the order of byte sequences is transitive.
pub proof fn lemma_bytes_before_transitive(a: Seq<u8>, b: Seq<u8>, c: Seq<u8>, i: int)
    requires
        bytes_before_from(a, b, i),
        bytes_before_from(b, c, i),
    ensures
        bytes_before_from(a, c, i),
    decreases c.len() - i,
{
    if i < a.len() && a[i] == b[i] && b[i] == c[i] {
        lemma_bytes_before_transitive(a, b, c, i + 1);
    }
}

/// Two byte sequences that agree before position `i`, neither of which comes
/// before the other from there on, are the same sequence.
pub proof fn lemma_bytes_before_total(a: Seq<u8>, b: Seq<u8>, i: int)
    requires
        0 <= i,
        i <= a.len(),
        i <= b.len(),
        a.take(i) == b.take(i),
        !bytes_before_from(a, b, i),
        !bytes_before_from(b, a, i),
    ensures
        a == b,
    decreases a.len() - i,
{
    if i < a.len() && i < b.len() {
        assert(a.take(i + 1) == a.take(i).push(a[i]));
        assert(b.take(i + 1) == b.take(i).push(b[i]));
        lemma_bytes_before_total(a, b, i + 1);
    } else {
        assert(a.take(i) == a);
        assert(b.take(i) == b);
    }
}

/// No name comes before itself.
pub proof fn lemma_name_before_irreflexive(a: Seq<char>)
    ensures
        !name_before(a, a),
{
    lemma_bytes_before_irreflexive(encode_utf8(a), 0);
}

/// The order of names is transitive.
pub proof fn lemma_name_before_transitive(a: Seq<char>, b: Seq<char>, c: Seq<char>)
    requires
        name_before(a, b),
        name_before(b, c),
    ensures
        name_before(a, c),
{
    lemma_bytes_before_transitive(encode_utf8(a), encode_utf8(b), encode_utf8(c), 0);
}

/// Of two different names one comes before the other.
pub proof fn lemma_name_before_total(a: Seq<char>, b: Seq<char>)
    ensures
        a == b || name_before(a, b) || name_before(b, a),
{
    let x = encode_utf8(a);
    let y = encode_utf8(b);
    if !name_before(a, b) && !name_before(b, a) {
        assert(x.take(0) == y.take(0));
        lemma_bytes_before_total(x, y, 0);
        vstd::utf8::encode_utf8_decode_utf8(a);
        vstd::utf8::encode_utf8_decode_utf8(b);
    }
}

/// Of two names at most one comes before the other.
pub proof fn lemma_name_before_asymmetric(a: Seq<char>, b: Seq<char>)
    requires
        name_before(a, b),
    ensures
        !name_before(b, a),
        a != b,
{
    lemma_name_before_irreflexive(a);
    if name_before(b, a) {
        lemma_name_before_transitive(a, b, a);
    }
}

/// Ranks `a` against `b` in the order of names.
pub fn rank_names(a: &str, b: &str) -> (r: Rank)
    ensures
        r == Rank::Before <==> name_before(a@, b@),
        r == Rank::Same <==> a@ == b@,
        r == Rank::After <==> name_before(b@, a@),
{
    let x = a.as_bytes();
    let y = b.as_bytes();
    let mut i: usize = 0;
    let mut r = Rank::Same;
    while i < x.len() && i < y.len()
        invariant_except_break
            r == Rank::Same,
        invariant
            x@ == encode_utf8(a@),
            y@ == encode_utf8(b@),
            i <= x.len(),
            i <= y.len(),
            x@.take(i as int) == y@.take(i as int),
            bytes_before_from(x@, y@, 0) == bytes_before_from(x@, y@, i as int),
            bytes_before_from(y@, x@, 0) == bytes_before_from(y@, x@, i as int),
        ensures
            r == Rank::Before ==> bytes_before_from(x@, y@, i as int),
            r == Rank::After ==> bytes_before_from(y@, x@, i as int),
            r == Rank::Same ==> i == x.len() || i == y.len(),
        decreases x.len() - i,
    {
        if x[i] < y[i] {
            r = Rank::Before;
            break;
        }
        if x[i] > y[i] {
            r = Rank::After;
            break;
        }
        proof {
            assert(x@.take(i + 1) == x@.take(i as int).push(x@[i as int]));
            assert(y@.take(i + 1) == y@.take(i as int).push(y@[i as int]));
        }
        i += 1;
    }
    if r == Rank::Same {
        if i < y.len() {
            r = Rank::Before;
        } else if i < x.len() {
            r = Rank::After;
        }
    }
    proof {
        if r == Rank::Same {
            lemma_bytes_before_total(x@, y@, i as int);
            vstd::utf8::encode_utf8_decode_utf8(a@);
            vstd::utf8::encode_utf8_decode_utf8(b@);
            lemma_name_before_irreflexive(a@);
        } else if r == Rank::Before {
            lemma_name_before_asymmetric(a@, b@);
        } else {
            lemma_name_before_asymmetric(b@, a@);
        }
    }
    r
}

/// Whether `a` and `b` hold the same characters.
pub fn same_text(a: &str, b: &str) -> (r: bool)
    ensures
        r == (a@ == b@),
{
    rank_names(a, b) == Rank::Same
}

/// Whether `name` begins with the characters of `prefix`.
pub fn starts_with(name: &str, prefix: &str) -> (r: bool)
    ensures
        r == prefix@.is_prefix_of(name@),
{
    let n = to_chars(name);
    let p = to_chars(prefix);
    if p.len() > n.len() {
        return false;
    }
    let mut i: usize = 0;
    while i < p.len()
        invariant
            i <= p.len(),
            p.len() <= n.len(),
            p@ == prefix@,
            n@ == name@,
            p@.take(i as int) == n@.take(i as int),
        decreases p.len() - i,
    {
        if p[i] != n[i] {
            proof {
                assert(p@[i as int] != n@.subrange(0, p@.len() as int)[i as int]);
            }
            return false;
        }
        proof {
            assert(p@.take(i + 1) == p@.take(i as int).push(p@[i as int]));
            assert(n@.take(i + 1) == n@.take(i as int).push(n@[i as int]));
        }
        i += 1;
    }
    proof {
        assert(p@.take(i as int) == p@);
        assert(n@.take(i as int) == n@.subrange(0, p@.len() as int));
    }
    true
}

/// The texts that a sequence of strings holds.
pub open spec fn texts(v: Seq<String>) -> Seq<Seq<char>> {
    v.map_values(|s: String| s@)
}

/// The segments of a hierarchical name: what stands between its `/`
/// separators, in order. A name without a separator is its only segment; one
/// that ends in a separator has an empty last segment.
pub open spec fn path_segments(s: Seq<char>) -> Seq<Seq<char>>
    decreases s.len(),
{
    if s.len() == 0 {
        seq![Seq::<char>::empty()]
    } else {
        let init = path_segments(s.drop_last());
        if s.last() == '/' {
            init.push(Seq::<char>::empty())
        } else {
            init.drop_last().push(init.last().push(s.last()))
        }
    }
}

/// The segments put together again, with `/` between them.
pub open spec fn joined(parts: Seq<Seq<char>>) -> Seq<char>
    decreases parts.len(),
{
    if parts.len() == 0 {
        Seq::<char>::empty()
    } else if parts.len() == 1 {
        parts[0]
    } else {
        joined(parts.drop_last()).push('/') + parts.last()
    }
}

/// A name has at least one segment, no segment holds a separator, and the
/// segments joined by separators give the name back.
pub proof fn lemma_path_segments(s: Seq<char>)
    ensures
        path_segments(s).len() >= 1,
        forall|k: int, i: int|
            0 <= k < path_segments(s).len() && 0 <= i < path_segments(s)[k].len()
                ==> #[trigger] path_segments(s)[k][i] != '/',
        joined(path_segments(s)) == s,
    decreases s.len(),
{
    if s.len() > 0 {
        let front = s.drop_last();
        let init = path_segments(front);
        lemma_path_segments(front);
        assert(front.push(s.last()) == s);
        if s.last() == '/' {
            let out = init.push(Seq::<char>::empty());
            assert(out.drop_last() == init);
            assert(joined(out) == joined(init).push('/') + Seq::<char>::empty());
            assert(joined(init).push('/') + Seq::<char>::empty() == joined(init).push('/'));
        } else {
            let last = init.last().push(s.last());
            let out = init.drop_last().push(last);
            assert(out.drop_last() == init.drop_last());
            if init.len() == 1 {
                assert(joined(out) == last);
                assert(joined(init) == init[0]);
            } else {
                assert(joined(out) == joined(init.drop_last()).push('/') + last);
                assert(joined(init) == joined(init.drop_last()).push('/') + init.last());
                assert(joined(init.drop_last()).push('/') + last == (joined(
                    init.drop_last(),
                ).push('/') + init.last()).push(s.last()));
            }
            assert forall|k: int, i: int|
                0 <= k < out.len() && 0 <= i < out[k].len() implies #[trigger] out[k][i]
                != '/' by {
                if k < out.len() - 1 {
                    assert(out[k] == init[k]);
                } else if i < init.last().len() {
                    assert(out[k][i] == init[init.len() - 1][i]);
                }
            }
        }
    } else {
        assert(joined(path_segments(s)) == path_segments(s)[0]);
    }
}

/// Splits a hierarchical name at its `/` separators.
pub fn split_path(name: &str) -> (parts: Vec<String>)
    ensures
        texts(parts@) == path_segments(name@),
        parts.len() >= 1,
{
    let chars = to_chars(name);
    let mut parts: Vec<String> = Vec::new();
    let mut current = String::new();
    let mut i: usize = 0;
    while i < chars.len()
        invariant
            i <= chars.len(),
            texts(parts@).push(current@) == path_segments(chars@.take(i as int)),
        decreases chars.len() - i,
    {
        let c = chars[i];
        proof {
            let before = chars@.take(i as int);
            let after = chars@.take(i as int + 1);
            assert(after.drop_last() == before);
            assert(after.last() == c);
            assert(texts(parts@).push(current@).drop_last() == texts(parts@));
        }
        if c == '/' {
            let ghost done = texts(parts@).push(current@);
            parts.push(current);
            current = String::new();
            proof {
                assert(texts(parts@) == done);
            }
        } else {
            current.push(c);
        }
        i += 1;
    }
    let ghost full = texts(parts@).push(current@);
    parts.push(current);
    proof {
        assert(chars@.take(i as int) == chars@);
        assert(texts(parts@) == full);
    }
    parts
}

/// The ten decimal digits.
pub open spec fn digits() -> Seq<char> {
    seq!['0', '1', '2', '3', '4', '5', '6', '7', '8', '9']
}

/// The decimal numeral of `n`, without leading zeros.
pub open spec fn decimal(n: nat) -> Seq<char>
    decreases n,
{
    if n < 10 {
        seq![digits()[n as int]]
    } else {
        decimal(n / 10).push(digits()[(n % 10) as int])
    }
}

/// The decimal digit for `d`.
fn digit(d: u64) -> (c: char)
    requires
        d < 10,
    ensures
        c == digits()[d as int],
{
    if d == 0 {
        '0'
    } else if d == 1 {
        '1'
    } else if d == 2 {
        '2'
    } else if d == 3 {
        '3'
    } else if d == 4 {
        '4'
    } else if d == 5 {
        '5'
    } else if d == 6 {
        '6'
    } else if d == 7 {
        '7'
    } else if d == 8 {
        '8'
    } else {
        '9'
    }
}

/// Writes `n` as a decimal numeral.
pub fn decimal_text(n: u64) -> (s: String)
    ensures
        s@ == decimal(n as nat),
    decreases n,
{
    if n < 10 {
        let mut s = String::new();
        s.push(digit(n));
        s
    } else {
        let mut s = decimal_text(n / 10);
        s.push(digit(n % 10));
        s
    }
}

} // verus!
