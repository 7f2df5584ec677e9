//! Character-level text handling: the pieces of `str` behaviour that the playlist and
//! page parsers rely on, each stated as a spec function over `Seq<char>` and implemented
//! by a verified loop.
use vstd::prelude::*;
use crate::outside::string_push;

verus! {

broadcast use vstd::string::group_string_axioms;

// ---------------------------------------------------------------------------------------
// Character classes and UTF-8 widths
// ---------------------------------------------------------------------------------------

/// Number of bytes that the UTF-8 encoding of `c` takes.
pub open spec fn char_width(c: char) -> nat {
    if (c as u32) < 0x80 {
        1
    } else if (c as u32) < 0x800 {
        2
    } else if (c as u32) < 0x10000 {
        3
    } else {
        4
    }
}

/// Number of bytes of the UTF-8 encoding of `s` (what `str::len` returns).
pub open spec fn byte_len(s: Seq<char>) -> nat
    decreases s.len(),
{
    if s.len() == 0 {
        0
    } else {
        byte_len(s.drop_last()) + char_width(s.last())
    }
}

pub open spec fn is_ascii_char(c: char) -> bool {
    (c as u32) < 0x80
}

pub open spec fn is_ascii_digit(c: char) -> bool {
    '0' <= c && c <= '9'
}

/// `char::is_whitespace`: the characters with the Unicode `White_Space` property.
pub open spec fn is_whitespace(c: char) -> bool {
    let u = c as u32;
    ||| 0x09 <= u && u <= 0x0d
    ||| u == 0x20
    ||| u == 0x85
    ||| u == 0xa0
    ||| u == 0x1680
    ||| 0x2000 <= u && u <= 0x200a
    ||| u == 0x2028
    ||| u == 0x2029
    ||| u == 0x202f
    ||| u == 0x205f
    ||| u == 0x3000
}

pub fn width_of(c: char) -> (w: usize)
    ensures
        w == char_width(c),
{
    let u = c as u32;
    if u < 0x80 {
        1
    } else if u < 0x800 {
        2
    } else if u < 0x10000 {
        3
    } else {
        4
    }
}

pub fn is_digit(c: char) -> (b: bool)
    ensures
        b == is_ascii_digit(c),
{
    '0' <= c && c <= '9'
}

pub fn is_space(c: char) -> (b: bool)
    ensures
        b == is_whitespace(c),
{
    let u = c as u32;
    (0x09 <= u && u <= 0x0d) || u == 0x20 || u == 0x85 || u == 0xa0 || u == 0x1680 || (0x2000 <= u
        && u <= 0x200a) || u == 0x2028 || u == 0x2029 || u == 0x202f || u == 0x205f || u == 0x3000
}

pub proof fn lemma_byte_len_ge_len(s: Seq<char>)
    ensures
        byte_len(s) >= s.len(),
    decreases s.len(),
{
    if s.len() > 0 {
        lemma_byte_len_ge_len(s.drop_last());
    }
}

pub proof fn lemma_byte_len_take_step(s: Seq<char>, i: int)
    requires
        0 <= i < s.len(),
    ensures
        byte_len(s.take(i + 1)) == byte_len(s.take(i)) + char_width(s[i]),
{
    assert(s.take(i + 1).drop_last() =~= s.take(i));
}

// ---------------------------------------------------------------------------------------
// Conversions between `str`/`String` and character vectors
// ---------------------------------------------------------------------------------------

/// The characters of a string slice, in order.
pub fn chars_of(s: &str) -> (v: Vec<char>)
    ensures
        v@ == s@,
{
    let mut v: Vec<char> = Vec::new();
    for c in it: s.chars()
        invariant
            v@ == it.seq().take(it.index() as int),
    {
        v.push(c);
    }
    v
}

/// A `String` holding exactly the given characters.
pub fn string_of(v: &[char]) -> (s: String)
    ensures
        s@ == v@,
{
    let mut s = String::new();
    let mut i: usize = 0;
    while i < v.len()
        invariant
            i <= v@.len(),
            s@ == v@.take(i as int),
        decreases v@.len() - i,
    {
        string_push(&mut s, v[i]);
        assert(v@.take(i as int).push(v@[i as int]) =~= v@.take(i + 1));
        i = i + 1;
    }
    assert(v@.take(v@.len() as int) =~= v@);
    s
}

/// Appends `src` to the end of `dst`.
pub fn push_all(dst: &mut Vec<char>, src: &[char])
    ensures
        final(dst)@ == old(dst)@ + src@,
{
    let mut i: usize = 0;
    while i < src.len()
        invariant
            i <= src@.len(),
            dst@ == old(dst)@ + src@.take(i as int),
        decreases src@.len() - i,
    {
        dst.push(src[i]);
        assert(old(dst)@ + src@.take(i + 1) =~= (old(dst)@ + src@.take(i as int)).push(src@[i as int]));
        i = i + 1;
    }
    assert(src@.take(src@.len() as int) =~= src@);
}

/// Appends the characters of `src` to the end of `dst`.
pub fn push_str(dst: &mut Vec<char>, src: &str)
    ensures
        final(dst)@ == old(dst)@ + src@,
{
    let v = chars_of(src);
    push_all(dst, v.as_slice());
}

/// The characters `s[from..to]`.
pub fn slice_chars(s: &[char], from: usize, to: usize) -> (r: Vec<char>)
    requires
        from <= to <= s@.len(),
    ensures
        r@ == s@.subrange(from as int, to as int),
{
    let mut r: Vec<char> = Vec::new();
    let mut i: usize = from;
    while i < to
        invariant
            from <= i <= to <= s@.len(),
            r@ == s@.subrange(from as int, i as int),
        decreases to - i,
    {
        r.push(s[i]);
        assert(s@.subrange(from as int, i + 1) =~= s@.subrange(from as int, i as int).push(s@[i as int]));
        i = i + 1;
    }
    r
}

/// Whether two character sequences are equal.
pub fn chars_eq(a: &[char], b: &[char]) -> (r: bool)
    ensures
        r == (a@ == b@),
{
    if a.len() != b.len() {
        return false;
    }
    let mut i: usize = 0;
    while i < a.len()
        invariant
            i <= a@.len(),
            a@.len() == b@.len(),
            forall|j: int| 0 <= j < i ==> a@[j] == b@[j],
        decreases a@.len() - i,
    {
        if a[i] != b[i] {
            return false;
        }
        i = i + 1;
    }
    assert(a@ =~= b@);
    true
}

// ---------------------------------------------------------------------------------------
// Searching
// ---------------------------------------------------------------------------------------

/// `pat` occurs in `s` at character position `i`.
pub open spec fn occurs_at(s: Seq<char>, pat: Seq<char>, i: int) -> bool {
    0 <= i && i + pat.len() <= s.len() && s.subrange(i, i + pat.len()) == pat
}

/// First character position, at or after `from`, at which `pat` occurs in `s`.
pub open spec fn find_from(s: Seq<char>, pat: Seq<char>, from: int) -> Option<int>
    decreases s.len() + 1 - from,
{
    if from < 0 || from + pat.len() > s.len() {
        None
    } else if occurs_at(s, pat, from) {
        Some(from)
    } else {
        find_from(s, pat, from + 1)
    }
}

/// `str::find`, counted in characters: the first position at which `pat` occurs.
pub open spec fn find_seq(s: Seq<char>, pat: Seq<char>) -> Option<int> {
    find_from(s, pat, 0)
}

/// `str::contains`.
pub open spec fn contains_seq(s: Seq<char>, pat: Seq<char>) -> bool {
    find_seq(s, pat) is Some
}

pub proof fn lemma_find_from_props(s: Seq<char>, pat: Seq<char>, from: int)
    requires
        0 <= from,
    ensures
        find_from(s, pat, from) matches Some(i) ==> from <= i && occurs_at(s, pat, i) && forall|
            j: int,
        | from <= j < i ==> !occurs_at(s, pat, j),
        find_from(s, pat, from) is None ==> forall|j: int| from <= j ==> !occurs_at(s, pat, j),
    decreases s.len() + 1 - from,
{
    if from + pat.len() > s.len() {
    } else if occurs_at(s, pat, from) {
    } else {
        lemma_find_from_props(s, pat, from + 1);
    }
}

fn occurs_at_exec(s: &[char], pat: &[char], i: usize) -> (r: bool)
    requires
        i + pat@.len() <= s@.len(),
    ensures
        r == occurs_at(s@, pat@, i as int),
{
    let n = s.len();
    let mut k: usize = 0;
    while k < pat.len()
        invariant
            k <= pat@.len(),
            n == s@.len(),
            i + pat@.len() <= s@.len(),
            forall|j: int| 0 <= j < k ==> s@[i + j] == pat@[j],
        decreases pat@.len() - k,
    {
        if s[i + k] != pat[k] {
            assert(s@.subrange(i as int, i + pat@.len())[k as int] != pat@[k as int]);
            return false;
        }
        k = k + 1;
    }
    assert(s@.subrange(i as int, i + pat@.len()) =~= pat@);
    true
}

/// `str::find` in characters.
pub fn find(s: &[char], pat: &[char]) -> (r: Option<usize>)
    ensures
        r matches Some(i) ==> find_seq(s@, pat@) == Some(i as int),
        r is None ==> find_seq(s@, pat@) is None,
{
    if pat.len() > s.len() {
        return None;
    }
    let last = s.len() - pat.len();
    let mut i: usize = 0;
    loop
        invariant
            last + pat@.len() == s@.len(),
            i <= last,
            find_from(s@, pat@, 0) == find_from(s@, pat@, i as int),
        decreases last - i,
    {
        if occurs_at_exec(s, pat, i) {
            return Some(i);
        }
        if i == last {
            assert(find_from(s@, pat@, i + 1) is None);
            return None;
        }
        i = i + 1;
    }
}

/// `str::contains` in characters.
pub fn contains(s: &[char], pat: &[char]) -> (r: bool)
    ensures
        r == contains_seq(s@, pat@),
{
    find(s, pat).is_some()
}

/// `str::contains` for a pattern given as a string slice.
pub fn contains_str(s: &[char], pat: &str) -> (r: bool)
    ensures
        r == contains_seq(s@, pat@),
{
    let p = chars_of(pat);
    contains(s, p.as_slice())
}

/// `str::find` for a pattern given as a string slice.
pub fn find_str(s: &[char], pat: &str) -> (r: Option<usize>)
    ensures
        r matches Some(i) ==> find_seq(s@, pat@) == Some(i as int),
        r is None ==> find_seq(s@, pat@) is None,
{
    let p = chars_of(pat);
    find(s, p.as_slice())
}


// ---------------------------------------------------------------------------------------
// Splitting and lines
// ---------------------------------------------------------------------------------------

/// The views of a sequence of character vectors.
pub open spec fn seqs(v: Seq<Vec<char>>) -> Seq<Seq<char>> {
    v.map_values(|x: Vec<char>| x@)
}

/// `str::split` on a single character: the pieces between occurrences of `sep`; there is
/// always at least one piece.
pub open spec fn split_seq(s: Seq<char>, sep: char) -> Seq<Seq<char>>
    decreases s.len(),
{
    if s.len() == 0 {
        seq![Seq::<char>::empty()]
    } else {
        let r = split_seq(s.drop_last(), sep);
        if s.last() == sep {
            r.push(Seq::<char>::empty())
        } else {
            r.update(r.len() - 1, r.last().push(s.last()))
        }
    }
}

pub proof fn lemma_split_nonempty(s: Seq<char>, sep: char)
    ensures
        split_seq(s, sep).len() >= 1,
    decreases s.len(),
{
    if s.len() > 0 {
        lemma_split_nonempty(s.drop_last(), sep);
    }
}

/// `str::split` on a single character.
pub fn split(s: &[char], sep: char) -> (r: Vec<Vec<char>>)
    ensures
        seqs(r@) == split_seq(s@, sep),
        r@.len() >= 1,
{
    let mut done: Vec<Vec<char>> = Vec::new();
    let mut cur: Vec<char> = Vec::new();
    let mut i: usize = 0;
    while i < s.len()
        invariant
            i <= s@.len(),
            seqs(done@).push(cur@) == split_seq(s@.take(i as int), sep),
        decreases s@.len() - i,
    {
        let ghost prev = s@.take(i as int);
        proof {
            assert(s@.take(i + 1).drop_last() =~= prev);
            lemma_split_nonempty(prev, sep);
        }
        let c = s[i];
        if c == sep {
            let piece = cur;
            done.push(piece);
            cur = Vec::new();
            assert(seqs(done@).push(cur@) =~= split_seq(s@.take(i + 1), sep));
        } else {
            cur.push(c);
            assert(seqs(done@).push(cur@) =~= split_seq(s@.take(i + 1), sep));
        }
        i = i + 1;
    }
    assert(s@.take(s@.len() as int) =~= s@);
    done.push(cur);
    assert(seqs(done@) =~= split_seq(s@, sep));
    done
}

/// Drops one trailing carriage return.
pub open spec fn strip_cr(s: Seq<char>) -> Seq<char> {
    if s.len() > 0 && s.last() == '\r' {
        s.drop_last()
    } else {
        s
    }
}

/// `str::lines`: the pieces between line feeds, each that ended in a line feed without a
/// carriage return before it; a final line feed ends the last line, and an unterminated
/// last line keeps any carriage return.
pub open spec fn lines_seq(s: Seq<char>) -> Seq<Seq<char>> {
    if s.len() == 0 {
        Seq::empty()
    } else {
        let p = split_seq(s, '\n');
        let done = p.drop_last().map_values(|x: Seq<char>| strip_cr(x));
        if s.last() == '\n' {
            done
        } else {
            done.push(p.last())
        }
    }
}

fn strip_cr_exec(v: Vec<char>) -> (r: Vec<char>)
    ensures
        r@ == strip_cr(v@),
{
    let ghost orig = v@;
    let mut v = v;
    if v.len() > 0 && v[v.len() - 1] == '\r' {
        v.pop();
        assert(v@ =~= strip_cr(orig));
    }
    v
}

/// `str::lines`.
pub fn lines(s: &[char]) -> (r: Vec<Vec<char>>)
    ensures
        seqs(r@) == lines_seq(s@),
{
    let mut done: Vec<Vec<char>> = Vec::new();
    let mut cur: Vec<char> = Vec::new();
    let mut i: usize = 0;
    while i < s.len()
        invariant
            i <= s@.len(),
            seqs(done@) == split_seq(s@.take(i as int), '\n').drop_last().map_values(
                |x: Seq<char>| strip_cr(x),
            ),
            cur@ == split_seq(s@.take(i as int), '\n').last(),
        decreases s@.len() - i,
    {
        let ghost prev = s@.take(i as int);
        proof {
            assert(s@.take(i + 1).drop_last() =~= prev);
            lemma_split_nonempty(prev, '\n');
        }
        let c = s[i];
        if c == '\n' {
            let ghost p = split_seq(prev, '\n');
            assert(split_seq(s@.take(i + 1), '\n') == p.push(Seq::<char>::empty()));
            assert(p.push(Seq::<char>::empty()).drop_last() =~= p);
            assert(p =~= p.drop_last().push(p.last()));
            let ghost old_done = seqs(done@);
            let piece = strip_cr_exec(cur);
            assert(piece@ == strip_cr(p.last()));
            done.push(piece);
            assert(seqs(done@) =~= old_done.push(strip_cr(p.last())));
            assert(old_done =~= p.drop_last().map_values(|x: Seq<char>| strip_cr(x)));
            assert(p.map_values(|x: Seq<char>| strip_cr(x)) =~= old_done.push(strip_cr(p.last())));
            cur = Vec::new();
            assert(seqs(done@) =~= split_seq(s@.take(i + 1), '\n').drop_last().map_values(
                |x: Seq<char>| strip_cr(x),
            ));
        } else {
            let ghost p = split_seq(prev, '\n');
            assert(split_seq(s@.take(i + 1), '\n') == p.update(p.len() - 1, p.last().push(c)));
            assert(p.update(p.len() - 1, p.last().push(c)).drop_last() =~= p.drop_last());
            cur.push(c);
            assert(seqs(done@) =~= split_seq(s@.take(i + 1), '\n').drop_last().map_values(
                |x: Seq<char>| strip_cr(x),
            ));
        }
        i = i + 1;
    }
    assert(s@.take(s@.len() as int) =~= s@);
    if s.len() == 0 {
        assert(seqs(done@) =~= lines_seq(s@));
        return done;
    }
    proof {
        let p = split_seq(s@.drop_last(), '\n');
        lemma_split_nonempty(s@.drop_last(), '\n');
        if s@.last() == '\n' {
            assert(split_seq(s@, '\n') == p.push(Seq::<char>::empty()));
            assert(cur@.len() == 0);
        } else {
            assert(split_seq(s@, '\n') == p.update(p.len() - 1, p.last().push(s@.last())));
            assert(cur@.len() > 0);
        }
    }
    if cur.len() > 0 {
        done.push(cur);
    }
    assert(seqs(done@) =~= lines_seq(s@));
    done
}

// ---------------------------------------------------------------------------------------
// Character maps, filters, reversal, replacement
// ---------------------------------------------------------------------------------------

/// `s` with every `from` replaced by `to` (`str::replace` with one-character patterns).
pub open spec fn replace_char_seq(s: Seq<char>, from: char, to: char) -> Seq<char> {
    s.map_values(|c: char| if c == from { to } else { c })
}

pub fn replace_char(s: &[char], from: char, to: char) -> (r: Vec<char>)
    ensures
        r@ == replace_char_seq(s@, from, to),
{
    let mut r: Vec<char> = Vec::new();
    let mut i: usize = 0;
    while i < s.len()
        invariant
            i <= s@.len(),
            r@ == replace_char_seq(s@.take(i as int), from, to),
        decreases s@.len() - i,
    {
        let c = s[i];
        if c == from {
            r.push(to);
        } else {
            r.push(c);
        }
        assert(r@ =~= replace_char_seq(s@.take(i + 1), from, to));
        i = i + 1;
    }
    assert(s@.take(s@.len() as int) =~= s@);
    r
}

/// The ASCII digits of `s`, in order.
pub open spec fn digits_only(s: Seq<char>) -> Seq<char>
    decreases s.len(),
{
    if s.len() == 0 {
        s
    } else if is_ascii_digit(s.last()) {
        digits_only(s.drop_last()).push(s.last())
    } else {
        digits_only(s.drop_last())
    }
}

pub fn keep_digits(s: &[char]) -> (r: Vec<char>)
    ensures
        r@ == digits_only(s@),
{
    let mut r: Vec<char> = Vec::new();
    let mut i: usize = 0;
    while i < s.len()
        invariant
            i <= s@.len(),
            r@ == digits_only(s@.take(i as int)),
        decreases s@.len() - i,
    {
        assert(s@.take(i + 1).drop_last() =~= s@.take(i as int));
        if is_digit(s[i]) {
            r.push(s[i]);
        }
        i = i + 1;
    }
    assert(s@.take(s@.len() as int) =~= s@);
    r
}

/// `s` in reverse order.
pub open spec fn reversed(s: Seq<char>) -> Seq<char> {
    Seq::new(s.len(), |k: int| s[s.len() - 1 - k])
}

pub fn reverse(s: &[char]) -> (r: Vec<char>)
    ensures
        r@ == reversed(s@),
{
    let mut r: Vec<char> = Vec::new();
    let mut i: usize = s.len();
    while i > 0
        invariant
            i <= s@.len(),
            r@.len() == s@.len() - i,
            forall|k: int| 0 <= k < r@.len() ==> r@[k] == s@[s@.len() - 1 - k],
        decreases i,
    {
        i = i - 1;
        r.push(s[i]);
    }
    assert(r@ =~= reversed(s@));
    r
}

/// `str::replace`: the occurrences of `pat` found left to right without overlap are each
/// replaced by `rep`; an empty pattern matches before every character and at the end.
pub open spec fn replace_seq(s: Seq<char>, pat: Seq<char>, rep: Seq<char>) -> Seq<char>
    decreases s.len(),
{
    if pat.len() == 0 {
        if s.len() == 0 {
            rep
        } else {
            rep + seq![s[0]] + replace_seq(s.drop_first(), pat, rep)
        }
    } else if s.len() == 0 {
        s
    } else if pat.len() <= s.len() && s.take(pat.len() as int) == pat {
        rep + replace_seq(s.skip(pat.len() as int), pat, rep)
    } else {
        seq![s[0]] + replace_seq(s.drop_first(), pat, rep)
    }
}

pub fn replace(s: &[char], pat: &[char], rep: &[char]) -> (r: Vec<char>)
    ensures
        r@ == replace_seq(s@, pat@, rep@),
{
    let mut r: Vec<char> = Vec::new();
    let mut i: usize = 0;
    let n = s.len();
    assert(s@.skip(0) =~= s@);
    while i < n
        invariant
            i <= n == s@.len(),
            r@ + replace_seq(s@.skip(i as int), pat@, rep@) == replace_seq(s@, pat@, rep@),
        decreases n - i,
    {
        let ghost rest = s@.skip(i as int);
        if pat.len() == 0 {
            push_all(&mut r, rep);
            r.push(s[i]);
            assert(rest.drop_first() =~= s@.skip(i + 1));
            assert(r@ + replace_seq(s@.skip(i + 1), pat@, rep@) =~= replace_seq(s@, pat@, rep@));
            i = i + 1;
        } else if pat.len() <= n - i && occurs_at_exec(s, pat, i) {
            assert(rest.take(pat@.len() as int) =~= s@.subrange(i as int, i + pat@.len()));
            assert(rest.skip(pat@.len() as int) =~= s@.skip(i + pat@.len()));
            push_all(&mut r, rep);
            assert(r@ + replace_seq(s@.skip(i + pat@.len()), pat@, rep@) =~= replace_seq(s@, pat@, rep@));
            i = i + pat.len();
        } else {
            proof {
                if pat@.len() <= rest.len() {
                    assert(rest.take(pat@.len() as int) =~= s@.subrange(i as int, i + pat@.len()));
                }
            }
            assert(rest.drop_first() =~= s@.skip(i + 1));
            r.push(s[i]);
            assert(r@ + replace_seq(s@.skip(i + 1), pat@, rep@) =~= replace_seq(s@, pat@, rep@));
            i = i + 1;
        }
    }
    assert(s@.skip(n as int) =~= Seq::<char>::empty());
    if pat.len() == 0 {
        push_all(&mut r, rep);
    }
    assert(r@ =~= replace_seq(s@, pat@, rep@));
    r
}


// ---------------------------------------------------------------------------------------
// Trimming and number parsing
// ---------------------------------------------------------------------------------------

pub open spec fn trim_start_seq(s: Seq<char>) -> Seq<char>
    decreases s.len(),
{
    if s.len() > 0 && is_whitespace(s[0]) {
        trim_start_seq(s.drop_first())
    } else {
        s
    }
}

pub open spec fn trim_end_seq(s: Seq<char>) -> Seq<char>
    decreases s.len(),
{
    if s.len() > 0 && is_whitespace(s.last()) {
        trim_end_seq(s.drop_last())
    } else {
        s
    }
}

/// `str::trim`: leading and trailing whitespace removed.
pub open spec fn trim_seq(s: Seq<char>) -> Seq<char> {
    trim_end_seq(trim_start_seq(s))
}

pub fn trim(s: &[char]) -> (r: Vec<char>)
    ensures
        r@ == trim_seq(s@),
{
    let n = s.len();
    let mut a: usize = 0;
    assert(s@.skip(0) =~= s@);
    while a < n && is_space(s[a])
        invariant
            a <= n == s@.len(),
            trim_start_seq(s@) == trim_start_seq(s@.skip(a as int)),
        decreases n - a,
    {
        assert(s@.skip(a as int).drop_first() =~= s@.skip(a + 1));
        a = a + 1;
    }
    let ghost t = s@.skip(a as int);
    assert(trim_start_seq(s@) == t) by {
        if a < n {
            assert(t[0] == s@[a as int]);
        }
    }
    let mut b: usize = n;
    assert(t.take((b - a) as int) =~= t);
    while b > a && is_space(s[b - 1])
        invariant
            a <= b <= n == s@.len(),
            t == s@.skip(a as int),
            trim_end_seq(t) == trim_end_seq(t.take((b - a) as int)),
        decreases b,
    {
        assert(t.take((b - a) as int).drop_last() =~= t.take((b - 1 - a) as int));
        b = b - 1;
    }
    assert(trim_end_seq(t.take((b - a) as int)) == t.take((b - a) as int)) by {
        if b > a {
            assert(t.take((b - a) as int).last() == s@[b - 1]);
        }
    }
    assert(t.take((b - a) as int) =~= s@.subrange(a as int, b as int));
    slice_chars(s, a, b)
}

/// Decimal value of a sequence of ASCII digits.
pub open spec fn dec_value(d: Seq<char>) -> nat
    decreases d.len(),
{
    if d.len() == 0 {
        0
    } else {
        dec_value(d.drop_last()) * 10 + ((d.last() as int) - ('0' as int)) as nat
    }
}

pub open spec fn all_digits(d: Seq<char>) -> bool {
    forall|i: int| 0 <= i < d.len() ==> is_ascii_digit(#[trigger] d[i])
}

/// The digits that `from_str` of an unsigned integer reads: an optional leading `+` dropped.
pub open spec fn unsigned_digits(s: Seq<char>) -> Seq<char> {
    if s.len() > 0 && s[0] == '+' {
        s.drop_first()
    } else {
        s
    }
}

/// `str::parse` for an unsigned integer type whose largest value is `max`: an optional `+`
/// followed by one or more ASCII digits, whose value does not exceed `max`.
pub open spec fn parse_uint_seq(s: Seq<char>, max: nat) -> Option<nat> {
    let d = unsigned_digits(s);
    if d.len() > 0 && all_digits(d) && dec_value(d) <= max {
        Some(dec_value(d))
    } else {
        None
    }
}

pub proof fn lemma_dec_value_mono(d: Seq<char>, j: int)
    requires
        0 <= j <= d.len(),
        all_digits(d),
    ensures
        dec_value(d.take(j)) <= dec_value(d),
    decreases d.len() - j,
{
    if j < d.len() {
        lemma_dec_value_mono(d, j + 1);
        assert(d.take(j + 1).drop_last() =~= d.take(j));
        assert(is_ascii_digit(d[j]));
    } else {
        assert(d.take(j) =~= d);
    }
}

fn parse_uint(s: &[char], max: u64) -> (r: Option<u64>)
    ensures
        r matches Some(v) ==> parse_uint_seq(s@, max as nat) == Some(v as nat),
        r is None ==> parse_uint_seq(s@, max as nat) is None,
{
    let n = s.len();
    let start: usize = if n > 0 && s[0] == '+' { 1 } else { 0 };
    let ghost d = unsigned_digits(s@);
    assert(d =~= s@.skip(start as int));
    if start == n {
        return None;
    }
    let mut acc: u64 = 0;
    let mut i: usize = start;
    while i < n
        invariant
            start <= i <= n == s@.len(),
            d == s@.skip(start as int),
            d == unsigned_digits(s@),
            all_digits(d.take(i - start)),
            acc == dec_value(d.take(i - start)),
            acc <= max,
        decreases n - i,
    {
        let c = s[i];
        assert(d[i - start] == c);
        if !is_digit(c) {
            assert(!all_digits(d));
            return None;
        }
        let dv: u64 = (c as u32 - '0' as u32) as u64;
        assert(d.take(i + 1 - start).drop_last() =~= d.take(i - start));
        assert(all_digits(d.take(i + 1 - start)));
        if dv > max || acc > (max - dv) / 10 {
            proof {
                assert(dec_value(d.take(i + 1 - start)) > max) by (nonlinear_arith)
                    requires
                        dec_value(d.take(i + 1 - start)) == acc * 10 + dv,
                        dv > max || acc > (max - dv) / 10,
                        dv <= 9,
                ;
                if all_digits(d) {
                    lemma_dec_value_mono(d, i + 1 - start);
                }
            }
            return None;
        }
        assert(acc * 10 + dv <= max) by (nonlinear_arith)
            requires
                acc <= (max - dv) / 10,
                dv <= max,
        ;
        acc = acc * 10 + dv;
        i = i + 1;
    }
    assert(d.take(n - start) =~= d);
    Some(acc)
}

/// `str::parse::<u64>`.
pub fn parse_u64(s: &[char]) -> (r: Option<u64>)
    ensures
        r matches Some(v) ==> parse_uint_seq(s@, u64::MAX as nat) == Some(v as nat),
        r is None ==> parse_uint_seq(s@, u64::MAX as nat) is None,
{
    parse_uint(s, u64::MAX)
}

/// `str::parse::<u32>`.
pub fn parse_u32(s: &[char]) -> (r: Option<u32>)
    ensures
        r matches Some(v) ==> parse_uint_seq(s@, u32::MAX as nat) == Some(v as nat),
        r is None ==> parse_uint_seq(s@, u32::MAX as nat) is None,
{
    match parse_uint(s, 0xffff_ffffu64) {
        Some(v) => Some(v as u32),
        None => None,
    }
}


// ---------------------------------------------------------------------------------------
// Byte offsets
// ---------------------------------------------------------------------------------------

/// Character position, at or after `i`, at which `b` bytes of `s` end.
pub open spec fn pos_from(s: Seq<char>, b: int, i: int) -> Option<int>
    decreases s.len() + 1 - i,
{
    if i < 0 || i > s.len() {
        None
    } else if byte_len(s.take(i)) == b {
        Some(i)
    } else if i == s.len() || byte_len(s.take(i)) > b {
        None
    } else {
        pos_from(s, b, i + 1)
    }
}

/// `str::get(a..b)` on byte offsets: `None` unless `a <= b` and both offsets fall on
/// character boundaries within `s`.
pub open spec fn byte_get(s: Seq<char>, a: int, b: int) -> Option<Seq<char>> {
    if a > b {
        None
    } else {
        match (pos_from(s, a, 0), pos_from(s, b, 0)) {
            (Some(i), Some(j)) => Some(s.subrange(i, j)),
            _ => None,
        }
    }
}

pub proof fn lemma_byte_len_strict(s: Seq<char>, i: int, j: int)
    requires
        0 <= i < j <= s.len(),
    ensures
        byte_len(s.take(i)) < byte_len(s.take(j)),
    decreases j - i,
{
    lemma_byte_len_take_step(s, j - 1);
    if i < j - 1 {
        lemma_byte_len_strict(s, i, j - 1);
    }
}

pub proof fn lemma_pos_from_props(s: Seq<char>, b: int, i: int)
    requires
        0 <= i <= s.len(),
    ensures
        pos_from(s, b, i) matches Some(k) ==> i <= k <= s.len() && byte_len(s.take(k)) == b,
        pos_from(s, b, i) is None ==> forall|k: int| i <= k <= s.len() ==> byte_len(s.take(k)) != b,
    decreases s.len() + 1 - i,
{
    if byte_len(s.take(i)) == b {
    } else if i == s.len() {
    } else if byte_len(s.take(i)) > b {
        assert forall|k: int| i <= k <= s.len() implies byte_len(s.take(k)) != b by {
            if i < k {
                lemma_byte_len_strict(s, i, k);
            }
        }
    } else {
        lemma_pos_from_props(s, b, i + 1);
    }
}

/// Skipping the positions before `p` does not change where a later offset falls.
pub proof fn lemma_pos_from_skip(s: Seq<char>, b: int, i: int, p: int)
    requires
        0 <= i <= p <= s.len(),
        byte_len(s.take(p)) <= b,
    ensures
        pos_from(s, b, i) == pos_from(s, b, p),
    decreases p - i,
{
    if i < p {
        lemma_byte_len_strict(s, i, p);
        lemma_pos_from_skip(s, b, i + 1, p);
    }
}

pub proof fn lemma_byte_len_concat(a: Seq<char>, b: Seq<char>)
    ensures
        byte_len(a + b) == byte_len(a) + byte_len(b),
    decreases b.len(),
{
    if b.len() > 0 {
        assert((a + b).drop_last() =~= a + b.drop_last());
        lemma_byte_len_concat(a, b.drop_last());
    } else {
        assert(a + b =~= a);
    }
}

/// Whether `byte_len(s) < k`, found without computing the whole length.
pub fn byte_len_lt(s: &[char], k: usize) -> (r: bool)
    ensures
        r == (byte_len(s@) < k),
{
    if k == 0 {
        return false;
    }
    let n = s.len();
    let mut count: usize = 0;
    let mut i: usize = 0;
    while i < n
        invariant
            i <= n == s@.len(),
            count == byte_len(s@.take(i as int)),
            count < k,
        decreases n - i,
    {
        proof {
            lemma_byte_len_take_step(s@, i as int);
        }
        let w = width_of(s[i]);
        if w >= k - count {
            proof {
                if i + 1 < n {
                    lemma_byte_len_strict(s@, i + 1, n as int);
                }
                assert(s@.take(n as int) =~= s@);
            }
            return false;
        }
        count = count + w;
        i = i + 1;
    }
    assert(s@.take(n as int) =~= s@);
    true
}

/// `byte_len(s) % 4`.
pub fn byte_len_mod4(s: &[char]) -> (r: usize)
    ensures
        r == byte_len(s@) % 4,
        r < 4,
{
    let n = s.len();
    let mut m: usize = 0;
    let mut i: usize = 0;
    while i < n
        invariant
            i <= n == s@.len(),
            m == byte_len(s@.take(i as int)) % 4,
            m < 4,
        decreases n - i,
    {
        proof {
            lemma_byte_len_take_step(s@, i as int);
        }
        let w = width_of(s[i]);
        m = (m + w) % 4;
        i = i + 1;
    }
    assert(s@.take(n as int) =~= s@);
    m
}

/// `s.get(n + lo..n + hi)` where `n` is the byte offset of character position `p`.
pub fn byte_window(s: &[char], p: usize, lo: usize, hi: usize) -> (r: Option<Vec<char>>)
    requires
        p <= s@.len(),
        lo <= hi,
    ensures
        r matches Some(v) ==> byte_get(s@, byte_len(s@.take(p as int)) + lo, byte_len(
            s@.take(p as int),
        ) + hi) == Some(v@),
        r is None ==> byte_get(s@, byte_len(s@.take(p as int)) + lo, byte_len(s@.take(p as int))
            + hi) is None,
{
    let ghost base = byte_len(s@.take(p as int));
    let n = s.len();
    proof {
        lemma_pos_from_skip(s@, base + lo, 0, p as int);
        lemma_pos_from_skip(s@, base + hi, 0, p as int);
    }
    // offsets counted from position p
    let mut count: usize = 0;
    let mut i: usize = p;
    let mut first: Option<usize> = None;
    loop
        invariant
            p <= i <= n == s@.len(),
            lo <= hi,
            base == byte_len(s@.take(p as int)),
            count <= hi,
            base + count == byte_len(s@.take(i as int)),
            pos_from(s@, base + lo, 0) == (if first is Some { Some(first->0 as int) } else {
                pos_from(s@, base + lo, i as int)
            }),
            first matches Some(f) ==> p <= f <= i,
            first is None ==> count <= lo,
            pos_from(s@, base + hi, 0) == pos_from(s@, base + hi, i as int),
        decreases n - i,
    {
        if first.is_none() && count == lo {
            first = Some(i);
        }
        if count == hi {
            assert(first is Some);
            let f = first.unwrap();
            proof {
                lemma_pos_from_props(s@, base + lo, 0);
            }
            return Some(slice_chars(s, f, i));
        }
        if i == n {
            proof {
                lemma_pos_from_props(s@, base + hi, i as int);
                assert(pos_from(s@, base + hi, i as int) is None);
            }
            return None;
        }
        proof {
            lemma_byte_len_take_step(s@, i as int);
        }
        let w = width_of(s[i]);
        if w > hi - count {
            proof {
                if i + 1 <= n {
                    assert forall|k: int| i + 1 <= k <= n implies byte_len(s@.take(k)) != base + hi by {
                        if i + 1 < k {
                            lemma_byte_len_strict(s@, i + 1, k);
                        }
                    }
                    lemma_pos_from_props(s@, base + hi, i + 1);
                }
                assert(pos_from(s@, base + hi, i + 1) is None);
                assert(pos_from(s@, base + hi, i as int) is None);
            }
            return None;
        }
        if first.is_none() && w > lo - count {
            proof {
                assert forall|k: int| i + 1 <= k <= n implies byte_len(s@.take(k)) != base + lo by {
                    if i + 1 < k {
                        lemma_byte_len_strict(s@, i + 1, k);
                    }
                }
                lemma_pos_from_props(s@, base + lo, i + 1);
                assert(pos_from(s@, base + lo, i + 1) is None);
                assert(pos_from(s@, base + lo, i as int) is None);
            }
            return None;
        }
        count = count + w;
        i = i + 1;
    }
}


// ---------------------------------------------------------------------------------------
// Last occurrence, line kinds, concatenation
// ---------------------------------------------------------------------------------------

/// Position of the last `c` in `s` (`str::rfind` with a one-character pattern).
pub open spec fn rfind_char_seq(s: Seq<char>, c: char) -> Option<int>
    decreases s.len(),
{
    if s.len() == 0 {
        None
    } else if s.last() == c {
        Some(s.len() - 1)
    } else {
        rfind_char_seq(s.drop_last(), c)
    }
}

pub proof fn lemma_rfind_range(s: Seq<char>, c: char)
    ensures
        rfind_char_seq(s, c) matches Some(i) ==> 0 <= i < s.len() && s[i] == c,
    decreases s.len(),
{
    if s.len() > 0 && s.last() != c {
        lemma_rfind_range(s.drop_last(), c);
    }
}

pub fn rfind_char(s: &[char], c: char) -> (r: Option<usize>)
    ensures
        r matches Some(i) ==> rfind_char_seq(s@, c) == Some(i as int),
        r is None ==> rfind_char_seq(s@, c) is None,
{
    let mut i: usize = s.len();
    assert(s@.take(i as int) =~= s@);
    while i > 0
        invariant
            i <= s@.len(),
            rfind_char_seq(s@, c) == rfind_char_seq(s@.take(i as int), c),
        decreases i,
    {
        if s[i - 1] == c {
            return Some(i - 1);
        }
        assert(s@.take(i as int).drop_last() =~= s@.take(i - 1));
        i = i - 1;
    }
    None
}

/// A line that the playlist parsers pass over: empty, or starting with `#`.
pub open spec fn blank_or_tag(line: Seq<char>) -> bool {
    line.len() == 0 || line[0] == '#'
}

/// A line that the variant pickers pass over: fewer than five bytes, or starting with `#`.
pub open spec fn short_or_tag(line: Seq<char>) -> bool {
    byte_len(line) < 5 || line[0] == '#'
}

/// Taking the first byte of the line as a string (`&line[..1]`) does not split a character.
pub open spec fn first_byte_sliceable(line: Seq<char>) -> bool {
    line.len() == 0 || is_ascii_char(line[0])
}

pub proof fn lemma_short_line_nonempty(line: Seq<char>)
    ensures
        !(byte_len(line) < 5) ==> line.len() > 0,
{
}

pub fn is_blank_or_tag(line: &[char]) -> (r: bool)
    ensures
        r == blank_or_tag(line@),
{
    line.len() == 0 || line[0] == '#'
}

pub fn is_short_or_tag(line: &[char]) -> (r: bool)
    ensures
        r == short_or_tag(line@),
{
    if byte_len_lt(line, 5) {
        return true;
    }
    proof {
        if line@.len() == 0 {
            assert(byte_len(line@) == 0);
        }
    }
    line[0] == '#'
}

// ---------------------------------------------------------------------------------------
// Decimal formatting
// ---------------------------------------------------------------------------------------

pub open spec fn digit_char(d: nat) -> char {
    (d + ('0' as nat)) as char
}

/// The decimal form of `n`, as `Display` writes it.
pub open spec fn dec_string(n: nat) -> Seq<char>
    decreases n,
{
    if n < 10 {
        seq![digit_char(n)]
    } else {
        dec_string(n / 10).push(digit_char(n % 10))
    }
}

/// The decimal form of a signed `n`, as `Display` writes it.
pub open spec fn int_string(n: int) -> Seq<char> {
    if n < 0 {
        seq!['-'] + dec_string((-n) as nat)
    } else {
        dec_string(n as nat)
    }
}

pub fn digit_exec(d: u64) -> (c: char)
    requires
        d < 10,
    ensures
        c == digit_char(d as nat),
{
    let b: u8 = 48u8 + (d as u8);
    b as char
}

/// The decimal form of `n`.
pub fn u64_digits(n: u64) -> (r: Vec<char>)
    ensures
        r@ == dec_string(n as nat),
    decreases n,
{
    if n < 10 {
        let r = vec![digit_exec(n)];
        assert(r@ =~= dec_string(n as nat));
        r
    } else {
        let mut r = u64_digits(n / 10);
        r.push(digit_exec(n % 10));
        r
    }
}

/// The decimal form of a signed `n`.
pub fn i64_digits(n: i64) -> (r: Vec<char>)
    ensures
        r@ == int_string(n as int),
{
    if n < 0 {
        let m: u64 = if n == i64::MIN { 0x8000_0000_0000_0000u64 } else { (-n) as u64 };
        let d = u64_digits(m);
        let mut r: Vec<char> = vec!['-'];
        push_all(&mut r, d.as_slice());
        assert(r@ =~= int_string(n as int));
        r
    } else {
        u64_digits(n as u64)
    }
}


/// The position at which exactly `byte_len(s.take(k))` bytes end is `k`.
pub proof fn lemma_pos_exact(s: Seq<char>, k: int)
    requires
        0 <= k <= s.len(),
    ensures
        pos_from(s, byte_len(s.take(k)) as int, 0) == Some(k),
{
    lemma_pos_from_props(s, byte_len(s.take(k)) as int, 0);
    match pos_from(s, byte_len(s.take(k)) as int, 0) {
        Some(k2) => {
            if k2 < k {
                lemma_byte_len_strict(s, k2, k);
            } else if k < k2 {
                lemma_byte_len_strict(s, k, k2);
            }
        },
        None => {},
    }
}

/// The character position at which `x` bytes after position `p` end, if that falls on a
/// character boundary.
pub fn char_pos_at(s: &[char], p: usize, x: usize) -> (r: Option<usize>)
    requires
        p <= s@.len(),
    ensures
        r matches Some(i) ==> pos_from(s@, byte_len(s@.take(p as int)) + x, 0) == Some(i as int),
        r is None ==> pos_from(s@, byte_len(s@.take(p as int)) + x, 0) is None,
{
    let ghost base = byte_len(s@.take(p as int));
    proof {
        lemma_pos_from_skip(s@, base + x, 0, p as int);
    }
    let n = s.len();
    let mut count: usize = 0;
    let mut i: usize = p;
    loop
        invariant
            p <= i <= n == s@.len(),
            base == byte_len(s@.take(p as int)),
            count <= x,
            base + count == byte_len(s@.take(i as int)),
            pos_from(s@, base + x, 0) == pos_from(s@, base + x, i as int),
        decreases n - i,
    {
        if count == x {
            return Some(i);
        }
        if i == n {
            proof {
                lemma_pos_from_props(s@, base + x, i as int);
            }
            return None;
        }
        proof {
            lemma_byte_len_take_step(s@, i as int);
        }
        let w = width_of(s[i]);
        if w > x - count {
            proof {
                assert forall|k: int| i + 1 <= k <= n implies byte_len(s@.take(k)) != base + x by {
                    if i + 1 < k {
                        lemma_byte_len_strict(s@, i + 1, k);
                    }
                }
                lemma_pos_from_props(s@, base + x, i + 1);
            }
            return None;
        }
        count = count + w;
        i = i + 1;
    }
}

} // verus!
