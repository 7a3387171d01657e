//! Text primitives shared by the parser and the router: substring search,
//! splitting on a separator, joining, whitespace tokens and trimming.
//!
//! What each operation yields is defined by a spec function on `Seq<char>`.
//! The executable functions work on slices of characters, so that a piece of
//! a text is a sub-slice of it, and each states its result by one of those
//! spec functions.

use vstd::prelude::*;
use vstd::slice::slice_subrange;

verus! {

/// Believed of `String::push`: it appends the character to the end of the
/// string and changes nothing else.
pub assume_specification[ String::push ](s: &mut String, ch: char)
    ensures
        final(s)@ == old(s)@.push(ch),
;

/// The Unicode `White_Space` code points.
pub open spec fn is_whitespace(c: char) -> bool {
    let u = c as u32;
    ||| 0x09 <= u <= 0x0d
    ||| u == 0x20
    ||| u == 0x85
    ||| u == 0xa0
    ||| u == 0x1680
    ||| 0x2000 <= u <= 0x200a
    ||| u == 0x2028
    ||| u == 0x2029
    ||| u == 0x202f
    ||| u == 0x205f
    ||| u == 0x3000
}

/// `pat` occurs in `s` starting at index `i`.
pub open spec fn occurs_at(s: Seq<char>, pat: Seq<char>, i: int) -> bool {
    &&& 0 <= i
    &&& i + pat.len() <= s.len()
    &&& s.subrange(i, i + pat.len()) == pat
}

/// The leftmost index at or after `from` at which `pat` occurs in `s`.
pub open spec fn find_from(s: Seq<char>, pat: Seq<char>, from: int) -> Option<int>
    decreases s.len() - from,
{
    if from < 0 || from + pat.len() > s.len() {
        None
    } else if pat.len() == 0 || occurs_at(s, pat, from) {
        Some(from)
    } else {
        find_from(s, pat, from + 1)
    }
}

/// The leftmost index at which `pat` occurs in `s`.
pub open spec fn find(s: Seq<char>, pat: Seq<char>) -> Option<int> {
    find_from(s, pat, 0)
}

/// `pat` occurs somewhere in `s`.
pub open spec fn contains(s: Seq<char>, pat: Seq<char>) -> bool {
    find(s, pat) is Some
}

/// The pieces of `s` between the non-overlapping occurrences of `sep`, taken
/// from left to right. There is always at least one piece. An empty
/// separator splits nothing.
pub open spec fn split(s: Seq<char>, sep: Seq<char>) -> Seq<Seq<char>>
    decreases s.len(),
    via split_decreases
{
    if sep.len() == 0 {
        seq![s]
    } else {
        match find(s, sep) {
            Some(i) => seq![s.take(i)] + split(s.skip(i + sep.len()), sep),
            None => seq![s],
        }
    }
}

#[via_fn]
proof fn split_decreases(s: Seq<char>, sep: Seq<char>) {
    lemma_find_from(s, sep, 0);
}

/// A word: at least one character, and no whitespace.
pub open spec fn is_word(s: Seq<char>) -> bool {
    &&& s.len() > 0
    &&& forall|j: int| 0 <= j < s.len() ==> !is_whitespace(#[trigger] s[j])
}

/// The pieces glued together with `sep` between neighbours.
pub open spec fn join(parts: Seq<Seq<char>>, sep: Seq<char>) -> Seq<char>
    decreases parts.len(),
{
    if parts.len() == 0 {
        Seq::empty()
    } else if parts.len() == 1 {
        parts[0]
    } else {
        parts[0] + sep + join(parts.skip(1), sep)
    }
}

/// The length of the longest prefix of `s` that holds no whitespace.
pub open spec fn word_len(s: Seq<char>) -> nat
    decreases s.len(),
{
    if s.len() == 0 || is_whitespace(s[0]) {
        0
    } else {
        1 + word_len(s.skip(1))
    }
}

/// The maximal runs of non-whitespace characters of `s`, from left to right.
pub open spec fn tokens(s: Seq<char>) -> Seq<Seq<char>>
    decreases s.len(),
    via tokens_decreases
{
    if s.len() == 0 {
        Seq::empty()
    } else if is_whitespace(s[0]) {
        tokens(s.skip(1))
    } else {
        seq![s.take(word_len(s) as int)] + tokens(s.skip(word_len(s) as int))
    }
}

#[via_fn]
proof fn tokens_decreases(s: Seq<char>) {
    if s.len() > 0 && !is_whitespace(s[0]) {
        lemma_word_len(s);
    }
}

/// `s` without its leading whitespace.
pub open spec fn trim_start(s: Seq<char>) -> Seq<char>
    decreases s.len(),
{
    if s.len() > 0 && is_whitespace(s[0]) {
        trim_start(s.skip(1))
    } else {
        s
    }
}

/// `s` without its trailing whitespace.
pub open spec fn trim_end(s: Seq<char>) -> Seq<char>
    decreases s.len(),
{
    if s.len() > 0 && is_whitespace(s.last()) {
        trim_end(s.drop_last())
    } else {
        s
    }
}

/// `s` without its leading and trailing whitespace.
pub open spec fn trim(s: Seq<char>) -> Seq<char> {
    trim_end(trim_start(s))
}

/// What `find_from` returns is the least occurrence at or after `from`.
pub proof fn lemma_find_from(s: Seq<char>, pat: Seq<char>, from: int)
    requires
        0 <= from,
    ensures
        match find_from(s, pat, from) {
            Some(i) => {
                &&& from <= i
                &&& occurs_at(s, pat, i)
                &&& forall|j: int| from <= j < i ==> !occurs_at(s, pat, j)
            },
            None => forall|j: int| from <= j ==> !occurs_at(s, pat, j),
        },
    decreases s.len() - from,
{
    if from + pat.len() > s.len() {
    } else if pat.len() == 0 {
        assert(s.subrange(from, from + pat.len()) =~= pat);
    } else if occurs_at(s, pat, from) {
    } else {
        lemma_find_from(s, pat, from + 1);
    }
}

/// An occurrence with none before it is the one that `find_from` returns.
pub proof fn lemma_find_from_is(s: Seq<char>, pat: Seq<char>, from: int, i: int)
    requires
        0 <= from <= i,
        occurs_at(s, pat, i),
        forall|j: int| from <= j < i ==> !occurs_at(s, pat, j),
    ensures
        find_from(s, pat, from) == Some(i),
{
    lemma_find_from(s, pat, from);
}

/// Without any occurrence at or after `from`, `find_from` returns `None`.
pub proof fn lemma_find_from_none(s: Seq<char>, pat: Seq<char>, from: int)
    requires
        0 <= from,
        forall|j: int| from <= j ==> !occurs_at(s, pat, j),
    ensures
        find_from(s, pat, from) is None,
{
    lemma_find_from(s, pat, from);
}

/// `word_len` stops at the first whitespace character or at the end.
pub proof fn lemma_word_len(s: Seq<char>)
    ensures
        word_len(s) <= s.len(),
        forall|j: int| 0 <= j < word_len(s) ==> !is_whitespace(#[trigger] s[j]),
        word_len(s) < s.len() ==> is_whitespace(s[word_len(s) as int]),
        s.len() > 0 && !is_whitespace(s[0]) ==> word_len(s) > 0,
    decreases s.len(),
{
    if s.len() == 0 || is_whitespace(s[0]) {
    } else {
        lemma_word_len(s.skip(1));
        assert forall|j: int| 0 <= j < word_len(s) implies !is_whitespace(#[trigger] s[j]) by {
            if j > 0 {
                assert(s[j] == s.skip(1)[j - 1]);
            }
        }
    }
}

/// A run of non-whitespace characters that ends at whitespace or at the end
/// of `s` is the first word of `s`.
pub proof fn lemma_word_len_is(s: Seq<char>, n: int)
    requires
        0 <= n <= s.len(),
        forall|j: int| 0 <= j < n ==> !is_whitespace(#[trigger] s[j]),
        n < s.len() ==> is_whitespace(s[n]),
    ensures
        word_len(s) == n,
    decreases n,
{
    if n > 0 {
        assert forall|j: int| 0 <= j < n - 1 implies !is_whitespace(#[trigger] s.skip(1)[j]) by {
            assert(s.skip(1)[j] == s[j + 1]);
        }
        lemma_word_len_is(s.skip(1), n - 1);
    }
}

/// Appending a piece to a non-empty list appends the separator and the piece
/// to the joined text.
pub proof fn lemma_join_push(parts: Seq<Seq<char>>, x: Seq<char>, sep: Seq<char>)
    requires
        parts.len() > 0,
    ensures
        join(parts.push(x), sep) == join(parts, sep) + sep + x,
    decreases parts.len(),
{
    let all = parts.push(x);
    assert(all.skip(1) =~= parts.skip(1).push(x));
    if parts.len() == 1 {
        assert(all.skip(1) =~= seq![x]);
        assert(join(seq![x], sep) == x);
        assert(join(all, sep) =~= parts[0] + sep + x);
    } else {
        lemma_join_push(parts.skip(1), x, sep);
        assert(join(all, sep) =~= join(parts, sep) + sep + x);
    }
}

/// Joining the pieces of a split with the separator gives the text back.
pub proof fn lemma_join_split(s: Seq<char>, sep: Seq<char>)
    ensures
        join(split(s, sep), sep) == s,
    decreases s.len(),
{
    lemma_find_from(s, sep, 0);
    match find(s, sep) {
        Some(i) if sep.len() > 0 => {
            let rest = s.skip(i + sep.len());
            lemma_join_split(rest, sep);
            let parts = split(s, sep);
            assert(parts.skip(1) =~= split(rest, sep));
            assert(parts[0] == s.take(i));
            assert(s =~= s.take(i) + s.subrange(i, i + sep.len()) + rest);
        },
        _ => {},
    }
}

/// A piece that holds no separator, followed by the separator, is the first
/// piece of the split, provided that no occurrence of the separator begins
/// inside the piece.
pub proof fn lemma_split_first(line: Seq<char>, sep: Seq<char>, rest: Seq<char>)
    requires
        sep.len() > 0,
        forall|j: int| 0 <= j < line.len() ==> !occurs_at(line + sep + rest, sep, j),
    ensures
        split(line + sep + rest, sep) == seq![line] + split(rest, sep),
{
    let s = line + sep + rest;
    let i = line.len() as int;
    assert(s.subrange(i, i + sep.len()) =~= sep);
    lemma_find_from_is(s, sep, 0, i);
    assert(s.take(i) =~= line);
    assert(s.skip(i + sep.len()) =~= rest);
}

/// No piece of a split on a single character holds that character.
pub proof fn lemma_split_pieces(s: Seq<char>, c: char)
    ensures
        split(s, seq![c]).len() >= 1,
        forall|i: int, j: int|
            0 <= i < split(s, seq![c]).len() && 0 <= j < split(s, seq![c])[i].len() ==> split(
                s,
                seq![c],
            )[i][j] != c,
    decreases s.len(),
{
    let sep = seq![c];
    let parts = split(s, sep);
    lemma_find_from(s, sep, 0);
    assert forall|j: int| 0 <= j < s.len() && s[j] == c implies occurs_at(s, sep, j) by {
        assert(s.subrange(j, j + 1) =~= sep);
    }
    match find(s, sep) {
        Some(k) => {
            let rest = s.skip(k + 1);
            lemma_split_pieces(rest, c);
            assert forall|i: int, j: int|
                0 <= i < parts.len() && 0 <= j < parts[i].len() implies parts[i][j] != c by {
                if i == 0 {
                    assert(parts[0] == s.take(k));
                    assert(parts[0][j] == s[j]);
                } else {
                    assert(parts[i] == split(rest, sep)[i - 1]);
                }
            }
        },
        None => {},
    }
}

/// Splitting a text that was joined with a single character gives the pieces
/// back, where none of them holds that character.
pub proof fn lemma_split_join(parts: Seq<Seq<char>>, c: char)
    requires
        parts.len() >= 1,
        forall|i: int, j: int| 0 <= i < parts.len() && 0 <= j < parts[i].len() ==> parts[i][j] != c,
    ensures
        split(join(parts, seq![c]), seq![c]) == parts,
    decreases parts.len(),
{
    let sep = seq![c];
    if parts.len() == 1 {
        let s = parts[0];
        assert forall|j: int| 0 <= j implies !occurs_at(s, sep, j) by {
            if occurs_at(s, sep, j) {
                assert(s.subrange(j, j + 1)[0] == s[j]);
            }
        }
        lemma_find_from_none(s, sep, 0);
        assert(split(s, sep) =~= parts);
    } else {
        let first = parts[0];
        let tail = parts.skip(1);
        let rest = join(tail, sep);
        assert forall|i: int, j: int| 0 <= i < tail.len() && 0 <= j < tail[i].len() implies tail[i][j]
            != c by {
            assert(tail[i] == parts[i + 1]);
        }
        lemma_split_join(tail, c);
        let s = first + sep + rest;
        assert forall|j: int| 0 <= j < first.len() implies !occurs_at(s, sep, j) by {
            if occurs_at(s, sep, j) {
                assert(s.subrange(j, j + 1)[0] == s[j]);
                assert(s[j] == first[j]);
            }
        }
        lemma_split_first(first, sep, rest);
        assert(seq![first] + tail =~= parts);
    }
}

/// A word followed by whitespace or by the end is the first token.
pub proof fn lemma_tokens_word(word: Seq<char>, rest: Seq<char>)
    requires
        is_word(word),
        rest.len() == 0 || is_whitespace(rest[0]),
    ensures
        tokens(word + rest) == seq![word] + tokens(rest),
{
    let s = word + rest;
    let n = word.len() as int;
    assert(s[0] == word[0]);
    assert forall|j: int| 0 <= j < n implies !is_whitespace(#[trigger] s[j]) by {
        assert(s[j] == word[j]);
    }
    if n < s.len() {
        assert(s[n] == rest[0]);
    }
    lemma_word_len_is(s, n);
    assert(s.take(n) =~= word);
    assert(s.skip(n) =~= rest);
}

/// Whitespace in front changes no token.
pub proof fn lemma_tokens_space(c: char, rest: Seq<char>)
    requires
        is_whitespace(c),
    ensures
        tokens(seq![c] + rest) == tokens(rest),
{
    let s = seq![c] + rest;
    assert(s[0] == c);
    assert(s.skip(1) =~= rest);
}

/// Whitespace in front does not survive trimming.
pub proof fn lemma_trim_space(c: char, rest: Seq<char>)
    requires
        is_whitespace(c),
    ensures
        trim(seq![c] + rest) == trim(rest),
{
    let s = seq![c] + rest;
    assert(s[0] == c);
    assert(s.skip(1) =~= rest);
}

/// The character sequences of a list of slices.
pub open spec fn views(parts: Seq<&[char]>) -> Seq<Seq<char>> {
    Seq::new(parts.len(), |k: int| parts[k]@)
}

/// The characters of `s`, in order.
pub fn to_chars(s: &str) -> (v: Vec<char>)
    ensures
        v@ == s@,
{
    let mut v: Vec<char> = Vec::new();
    for c in it: s.chars()
        invariant
            it.seq() == s@,
            v@ == it.seq().take(it.index() as int),
    {
        v.push(c);
    }
    v
}

/// A string made of the characters of `s`, in order.
pub fn to_string(s: &[char]) -> (r: String)
    ensures
        r@ == s@,
{
    let mut r = String::new();
    let mut i: usize = 0;
    while i < s.len()
        invariant
            i <= s.len(),
            r@ == s@.take(i as int),
        decreases s.len() - i,
    {
        r.push(s[i]);
        i += 1;
        assert(s@.take(i as int) =~= s@.take(i - 1).push(s@[i - 1]));
    }
    assert(s@.take(s.len() as int) =~= s@);
    r
}

/// Whether `a` and `b` hold the same characters.
pub fn same_text(a: &[char], b: &[char]) -> (r: bool)
    ensures
        r == (a@ == b@),
{
    if a.len() != b.len() {
        return false;
    }
    let mut i: usize = 0;
    while i < a.len()
        invariant
            a.len() == b.len(),
            i <= a.len(),
            forall|j: int| 0 <= j < i ==> a@[j] == b@[j],
        decreases a.len() - i,
    {
        if a[i] != b[i] {
            return false;
        }
        i += 1;
    }
    assert(a@ =~= b@);
    true
}

/// Whether `c` is a Unicode whitespace character.
pub fn char_is_whitespace(c: char) -> (b: bool)
    ensures
        b == is_whitespace(c),
{
    let u: u32 = c as u32;
    (0x09 <= u && u <= 0x0d) || u == 0x20 || u == 0x85 || u == 0xa0 || u == 0x1680 || (0x2000 <= u
        && u <= 0x200a) || u == 0x2028 || u == 0x2029 || u == 0x202f || u == 0x205f || u == 0x3000
}

/// Whether `pat` occurs in `s` at index `i`.
pub fn matches_at(s: &[char], pat: &[char], i: usize) -> (b: bool)
    ensures
        b == occurs_at(s@, pat@, i as int),
{
    if pat.len() > s.len() || i > s.len() - pat.len() {
        return false;
    }
    let mut k: usize = 0;
    while k < pat.len()
        invariant
            k <= pat.len(),
            i + pat.len() <= s.len(),
            forall|j: int| 0 <= j < k ==> s@[i + j] == pat@[j],
        decreases pat.len() - k,
    {
        if s[i + k] != pat[k] {
            assert(s@.subrange(i as int, i + pat.len())[k as int] == s@[i + k]);
            return false;
        }
        k += 1;
    }
    assert(s@.subrange(i as int, i + pat.len()) =~= pat@);
    true
}

/// The leftmost index at which `pat` occurs in `s`, if there is one.
pub fn search(s: &[char], pat: &[char]) -> (r: Option<usize>)
    ensures
        match r {
            Some(i) => find(s@, pat@) == Some(i as int),
            None => find(s@, pat@) is None,
        },
{
    if pat.len() == 0 {
        return Some(0);
    }
    if pat.len() > s.len() {
        return None;
    }
    let last: usize = s.len() - pat.len();
    let mut i: usize = 0;
    while i <= last
        invariant
            i <= last + 1,
            0 < pat.len() <= s.len(),
            last == s.len() - pat.len(),
            forall|j: int| 0 <= j < i ==> !occurs_at(s@, pat@, j),
        decreases last + 1 - i,
    {
        if matches_at(s, pat, i) {
            proof {
                lemma_find_from_is(s@, pat@, 0, i as int);
            }
            return Some(i);
        }
        i += 1;
    }
    proof {
        lemma_find_from_none(s@, pat@, 0);
    }
    None
}

/// The pieces of `s` between the occurrences of `sep`.
pub fn split_slice<'a>(s: &'a [char], sep: &[char]) -> (r: Vec<&'a [char]>)
    ensures
        views(r@) == split(s@, sep@),
{
    let mut parts: Vec<&'a [char]> = Vec::new();
    let mut rest: &'a [char] = s;
    if sep.len() == 0 {
        parts.push(s);
        assert(views(parts@) =~= seq![s@]);
        return parts;
    }
    assert(views(parts@) + split(s@, sep@) =~= split(s@, sep@));
    loop
        invariant
            sep.len() > 0,
            split(s@, sep@) == views(parts@) + split(rest@, sep@),
        decreases rest.len(),
    {
        let ghost before = parts@;
        match search(rest, sep) {
            Some(i) => {
                proof {
                    lemma_find_from(rest@, sep@, 0);
                }
                let piece = slice_subrange(rest, 0, i);
                let after = slice_subrange(rest, i + sep.len(), rest.len());
                parts.push(piece);
                proof {
                    assert(piece@ =~= rest@.take(i as int));
                    assert(after@ =~= rest@.skip(i + sep.len()));
                    assert(views(parts@) =~= views(before).push(piece@));
                    assert(views(before) + (seq![piece@] + split(after@, sep@)) =~= views(parts@)
                        + split(after@, sep@));
                }
                rest = after;
            },
            None => {
                parts.push(rest);
                proof {
                    assert(views(parts@) =~= views(before) + seq![rest@]);
                }
                return parts;
            },
        }
    }
}

/// The pieces glued together with `sep` between neighbours.
pub fn join_slices(parts: &[&[char]], sep: &[char]) -> (r: Vec<char>)
    ensures
        r@ == join(views(parts@), sep@),
{
    let mut out: Vec<char> = Vec::new();
    let mut i: usize = 0;
    while i < parts.len()
        invariant
            i <= parts.len(),
            out@ == join(views(parts@).take(i as int), sep@),
        decreases parts.len() - i,
    {
        let ghost done = views(parts@).take(i as int);
        if i > 0 {
            out.extend_from_slice(sep);
        }
        out.extend_from_slice(parts[i]);
        proof {
            assert(views(parts@).take(i + 1) =~= done.push(parts@[i as int]@));
            if i > 0 {
                lemma_join_push(done, parts@[i as int]@, sep@);
            } else {
                assert(out@ =~= parts@[i as int]@);
            }
        }
        i += 1;
    }
    assert(views(parts@).take(parts.len() as int) =~= views(parts@));
    out
}

/// The maximal runs of non-whitespace characters of `s`.
pub fn tokenize<'a>(s: &'a [char]) -> (r: Vec<&'a [char]>)
    ensures
        views(r@) == tokens(s@),
{
    let mut out: Vec<&'a [char]> = Vec::new();
    let mut i: usize = 0;
    assert(s@.skip(0) =~= s@);
    assert(views(out@) + tokens(s@) =~= tokens(s@));
    while i < s.len()
        invariant
            i <= s.len(),
            tokens(s@) == views(out@) + tokens(s@.skip(i as int)),
        decreases s.len() - i,
    {
        let ghost rest = s@.skip(i as int);
        if char_is_whitespace(s[i]) {
            assert(rest.skip(1) =~= s@.skip(i + 1));
            i += 1;
        } else {
            let start: usize = i;
            while i < s.len() && !char_is_whitespace(s[i])
                invariant
                    start <= i <= s.len(),
                    forall|j: int| start <= j < i ==> !is_whitespace(s@[j]),
                decreases s.len() - i,
            {
                i += 1;
            }
            let word = slice_subrange(s, start, i);
            let ghost before = out@;
            out.push(word);
            proof {
                lemma_word_len_is(rest, i - start);
                assert(word@ =~= rest.take(i - start));
                assert(rest.skip(i - start) =~= s@.skip(i as int));
                assert(views(out@) =~= views(before).push(word@));
                assert(views(before) + (seq![word@] + tokens(s@.skip(i as int))) =~= views(out@)
                    + tokens(s@.skip(i as int)));
            }
        }
    }
    assert(views(out@) + tokens(s@.skip(i as int)) =~= views(out@));
    out
}

/// `s` without its leading and trailing whitespace.
pub fn strip<'a>(s: &'a [char]) -> (r: &'a [char])
    ensures
        r@ == trim(s@),
{
    let mut a: usize = 0;
    assert(s@.skip(0) =~= s@);
    while a < s.len() && char_is_whitespace(s[a])
        invariant
            a <= s.len(),
            trim_start(s@) == trim_start(s@.skip(a as int)),
        decreases s.len() - a,
    {
        assert(s@.skip(a as int).skip(1) =~= s@.skip(a + 1));
        a += 1;
    }
    let mut b: usize = s.len();
    assert(s@.subrange(a as int, b as int) =~= s@.skip(a as int));
    while b > a && char_is_whitespace(s[b - 1])
        invariant
            a <= b <= s.len(),
            trim(s@) == trim_end(s@.subrange(a as int, b as int)),
        decreases b,
    {
        assert(s@.subrange(a as int, b as int).drop_last() =~= s@.subrange(a as int, b - 1));
        b -= 1;
    }
    slice_subrange(s, a, b)
}

} // verus!
