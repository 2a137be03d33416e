//! Character-level building blocks: searching, splitting, trimming and
//! number parsing over sequences of characters.

use vstd::prelude::*;

verus! {

/// Position of the first occurrence of `x` in `s`, or `s.len()` when `x` does
/// not occur.
pub open spec fn first_index_of<T>(s: Seq<T>, x: T) -> int
    decreases s.len(),
{
    if s.len() == 0 || s[0] == x {
        0
    } else {
        1 + first_index_of(s.drop_first(), x)
    }
}

/// `first_index_of` lies within the sequence bounds, nothing before it equals
/// `x`, and where it is a valid index the element there is `x`.
pub proof fn lemma_first_index_of<T>(s: Seq<T>, x: T)
    ensures
        0 <= first_index_of(s, x) <= s.len(),
        forall|j: int| 0 <= j < first_index_of(s, x) ==> s[j] != x,
        first_index_of(s, x) < s.len() ==> s[first_index_of(s, x)] == x,
        first_index_of(s, x) == s.len() <==> !s.contains(x),
    decreases s.len(),
{
    if s.len() == 0 || s[0] == x {
    } else {
        let t = s.drop_first();
        lemma_first_index_of(t, x);
        let r = first_index_of(s, x);
        assert forall|j: int| 0 <= j < r implies s[j] != x by {
            if j > 0 {
                assert(s[j] == t[j - 1]);
            }
        }
        if r < s.len() {
            assert(s[r] == t[r - 1]);
        }
        if t.contains(x) {
            let k = choose|k: int| 0 <= k < t.len() && t[k] == x;
            assert(s[k + 1] == x);
        }
        if s.contains(x) {
            let k = choose|k: int| 0 <= k < s.len() && s[k] == x;
            assert(t[k - 1] == x);
        }
    }
}

/// Any position that satisfies the characterisation of the first occurrence
/// is the first occurrence.
pub proof fn lemma_first_index_of_unique<T>(s: Seq<T>, x: T, i: int)
    requires
        0 <= i <= s.len(),
        forall|j: int| 0 <= j < i ==> s[j] != x,
        i < s.len() ==> s[i] == x,
    ensures
        first_index_of(s, x) == i,
{
    lemma_first_index_of(s, x);
    let r = first_index_of(s, x);
    if r < i {
        assert(s[r] == x);
    } else if i < r {
        assert(s[i] == x);
    }
}

/// The pieces of `s` between occurrences of `sep`. A sequence with `n`
/// separators has `n + 1` pieces, some of which may be empty.
pub open spec fn split(s: Seq<char>, sep: char) -> Seq<Seq<char>>
    decreases s.len(),
{
    let i = first_index_of(s, sep);
    if 0 <= i < s.len() {
        seq![s.take(i)] + split(s.skip(i + 1), sep)
    } else {
        seq![s]
    }
}

/// The pieces `tokens` put together, with `sep` between neighbours.
pub open spec fn join(tokens: Seq<Seq<char>>, sep: char) -> Seq<char>
    decreases tokens.len(),
{
    if tokens.len() == 0 {
        Seq::empty()
    } else if tokens.len() == 1 {
        tokens[0]
    } else {
        tokens[0] + seq![sep] + join(tokens.drop_first(), sep)
    }
}

/// Splitting always gives at least one piece, and no piece holds the
/// separator.
pub proof fn lemma_split_pieces(s: Seq<char>, sep: char)
    ensures
        split(s, sep).len() >= 1,
        forall|i: int| 0 <= i < split(s, sep).len() ==> !(#[trigger] split(s, sep)[i]).contains(sep),
    decreases s.len(),
{
    lemma_first_index_of(s, sep);
    let i = first_index_of(s, sep);
    if 0 <= i < s.len() {
        let rest = s.skip(i + 1);
        lemma_split_pieces(rest, sep);
        let head = s.take(i);
        if head.contains(sep) {
            let k = choose|k: int| 0 <= k < head.len() && head[k] == sep;
            assert(s[k] == sep);
        }
        assert forall|j: int| 0 <= j < split(s, sep).len() implies !(#[trigger] split(
            s,
            sep,
        )[j]).contains(sep) by {
            if j > 0 {
                assert(split(s, sep)[j] == split(rest, sep)[j - 1]);
            }
        }
    }
}

/// Joining the pieces of a split gives back what was split.
pub proof fn law_join_undoes_split(s: Seq<char>, sep: char)
    ensures
        join(split(s, sep), sep) == s,
    decreases s.len(),
{
    lemma_first_index_of(s, sep);
    let i = first_index_of(s, sep);
    if 0 <= i < s.len() {
        let rest = s.skip(i + 1);
        law_join_undoes_split(rest, sep);
        lemma_split_pieces(rest, sep);
        let pieces = split(s, sep);
        assert(pieces.drop_first() =~= split(rest, sep));
        assert(s =~= s.take(i) + seq![sep] + rest);
    }
}

/// Splitting a join of pieces without separators gives back the pieces.
pub proof fn lemma_split_join(tokens: Seq<Seq<char>>, sep: char)
    requires
        tokens.len() >= 1,
        forall|i: int| 0 <= i < tokens.len() ==> !(#[trigger] tokens[i]).contains(sep),
    ensures
        split(join(tokens, sep), sep) == tokens,
    decreases tokens.len(),
{
    let s = join(tokens, sep);
    let head = tokens[0];
    assert(!head.contains(sep));
    if tokens.len() == 1 {
        lemma_first_index_of(s, sep);
        assert(split(s, sep) =~= tokens);
    } else {
        let rest = tokens.drop_first();
        assert forall|i: int| 0 <= i < rest.len() implies !(#[trigger] rest[i]).contains(sep) by {
            assert(rest[i] == tokens[i + 1]);
        }
        lemma_split_join(rest, sep);
        assert forall|j: int| 0 <= j < head.len() implies s[j] != sep by {
            assert(s[j] == head[j]);
            if head[j] == sep {
                assert(head.contains(sep));
            }
        }
        assert(s[head.len() as int] == sep);
        lemma_first_index_of_unique(s, sep, head.len() as int);
        assert(s.take(head.len() as int) =~= head);
        assert(s.skip(head.len() as int + 1) =~= join(rest, sep));
        assert(split(s, sep) =~= tokens);
    }
}

/// The views of a sequence of strings.
pub open spec fn texts(v: Seq<String>) -> Seq<Seq<char>> {
    Seq::new(v.len(), |i: int| v[i]@)
}

/// The characters of a string slice, as a vector.
pub fn chars_of(s: &str) -> (v: Vec<char>)
    ensures
        v@ == s@,
{
    let mut v: Vec<char> = Vec::new();
    for c in iter: s.chars()
        invariant
            iter.seq() == s@,
            v@ == s@.subrange(0, iter.index@),
    {
        v.push(c);
        proof {
            assert(v@ =~= s@.subrange(0, iter.index@ + 1));
        }
    }
    proof {
        assert(v@ =~= s@);
    }
    v
}

/// Searches `v` from position `start` for `c`. Returns the position of the
/// first occurrence at or after `start`, or `v.len()` when there is none.
pub fn find_char(v: &Vec<char>, start: usize, c: char) -> (i: usize)
    requires
        start <= v.len(),
    ensures
        i == start + first_index_of(v@.skip(start as int), c),
        start <= i <= v.len(),
{
    let mut i: usize = start;
    while i < v.len() && v[i] != c
        invariant
            start <= i <= v.len(),
            forall|j: int| start <= j < i ==> v@[j] != c,
        decreases v.len() - i,
    {
        i = i + 1;
    }
    proof {
        lemma_first_index_of_unique(v@.skip(start as int), c, i - start);
    }
    i
}

/// Searches `v` from position `start` for the byte `b`. Returns the position
/// of the first occurrence at or after `start`, or `v.len()` when there is
/// none.
pub fn find_byte(v: &Vec<u8>, start: usize, b: u8) -> (i: usize)
    requires
        start <= v.len(),
    ensures
        i == start + first_index_of(v@.skip(start as int), b),
        start <= i <= v.len(),
{
    let mut i: usize = start;
    while i < v.len() && v[i] != b
        invariant
            start <= i <= v.len(),
            forall|j: int| start <= j < i ==> v@[j] != b,
        decreases v.len() - i,
    {
        i = i + 1;
    }
    proof {
        lemma_first_index_of_unique(v@.skip(start as int), b, i - start);
    }
    i
}

/// Owned copy of the characters `from..to` of `s`.
pub fn substring(s: &str, from: usize, to: usize) -> (r: String)
    requires
        from <= to <= s@.len(),
    ensures
        r@ == s@.subrange(from as int, to as int),
{
    s.substring_char(from, to).to_owned()
}

/// Splits `s` at every occurrence of `sep`.
pub fn split_on(s: &str, sep: char) -> (parts: Vec<String>)
    ensures
        texts(parts@) == split(s@, sep),
{
    let cs = chars_of(s);
    let n: usize = cs.len();
    let mut parts: Vec<String> = Vec::new();
    let mut start: usize = 0;
    let mut done: bool = false;
    proof {
        assert(s@.skip(0) =~= s@);
        assert(texts(parts@) + split(s@, sep) =~= split(s@, sep));
    }
    while !done
        invariant
            cs@ == s@,
            n == cs.len(),
            start <= n,
            !done ==> split(s@, sep) == texts(parts@) + split(s@.skip(start as int), sep),
            done ==> split(s@, sep) == texts(parts@),
        decreases (if done { 0 } else { 1 + n - start }),
    {
        let i: usize = find_char(&cs, start, sep);
        let ghost before = texts(parts@);
        let ghost rest = s@.skip(start as int);
        let piece = substring(s, start, i);
        parts.push(piece);
        proof {
            assert(piece@ =~= rest.take(i - start));
            assert(texts(parts@) =~= before + seq![piece@]);
        }
        if i < n {
            proof {
                assert(rest.skip(i - start + 1) =~= s@.skip(i + 1));
                assert(split(rest, sep) == seq![piece@] + split(s@.skip(i + 1), sep));
                assert(before + (seq![piece@] + split(s@.skip(i + 1), sep)) =~= (before
                    + seq![piece@]) + split(s@.skip(i + 1), sep));
            }
            start = i + 1;
        } else {
            proof {
                assert(rest.take(i - start) =~= rest);
                assert(split(rest, sep) == seq![rest]);
            }
            done = true;
        }
    }
    parts
}

/// Whether `c` is a whitespace character (the Unicode `White_Space` property).
pub open spec fn is_whitespace(c: char) -> bool {
    let u = c as u32;
    ||| 0x09 <= u <= 0x0D
    ||| u == 0x20
    ||| u == 0x85
    ||| u == 0xA0
    ||| u == 0x1680
    ||| 0x2000 <= u <= 0x200A
    ||| u == 0x2028
    ||| u == 0x2029
    ||| u == 0x202F
    ||| u == 0x205F
    ||| u == 0x3000
}

/// `s` without its leading whitespace.
pub open spec fn trim_start(s: Seq<char>) -> Seq<char>
    decreases s.len(),
{
    if s.len() > 0 && is_whitespace(s[0]) {
        trim_start(s.drop_first())
    } else {
        s
    }
}

/// `s` without its trailing whitespace.
pub open spec fn trim_end(s: Seq<char>) -> Seq<char>
    decreases s.len(),
{
    if s.len() > 0 && is_whitespace(s.last()) {
        trim_end(s.drop_last())
    } else {
        s
    }
}

/// `s` without its leading and trailing whitespace.
pub open spec fn trim(s: Seq<char>) -> Seq<char> {
    trim_end(trim_start(s))
}

/// Dropping a run of whitespace characters from the front of `s` leaves
/// `trim_start` unchanged.
pub proof fn lemma_trim_start_skip(s: Seq<char>, a: int)
    requires
        0 <= a <= s.len(),
        forall|j: int| 0 <= j < a ==> is_whitespace(s[j]),
    ensures
        trim_start(s) == trim_start(s.skip(a)),
    decreases a,
{
    if a == 0 {
        assert(s.skip(0) =~= s);
    } else {
        let t = s.drop_first();
        assert forall|j: int| 0 <= j < a - 1 implies is_whitespace(t[j]) by {
            assert(t[j] == s[j + 1]);
        }
        lemma_trim_start_skip(t, a - 1);
        assert(t.skip(a - 1) =~= s.skip(a));
    }
}

/// Dropping a run of whitespace characters from the back of `s` leaves
/// `trim_end` unchanged.
pub proof fn lemma_trim_end_take(s: Seq<char>, b: int)
    requires
        0 <= b <= s.len(),
        forall|j: int| b <= j < s.len() ==> is_whitespace(s[j]),
    ensures
        trim_end(s) == trim_end(s.take(b)),
    decreases s.len() - b,
{
    if b == s.len() {
        assert(s.take(b) =~= s);
    } else {
        let t = s.drop_last();
        lemma_trim_end_take(t, b);
        assert(t.take(b) =~= s.take(b));
    }
}

/// What trimming means: the result is a contiguous slice of the input that
/// neither starts nor ends with whitespace, and everything cut away on either
/// side is whitespace.
pub proof fn lemma_trim_characterisation(s: Seq<char>)
    ensures
        exists|a: int, b: int|
            {
                &&& 0 <= a <= b <= s.len()
                &&& #[trigger] s.subrange(a, b) == trim(s)
                &&& forall|j: int| 0 <= j < a ==> is_whitespace(s[j])
                &&& forall|j: int| b <= j < s.len() ==> is_whitespace(s[j])
            },
        trim(s).len() > 0 ==> !is_whitespace(trim(s).first()) && !is_whitespace(trim(s).last()),
{
    lemma_trim_start_bounds(s);
    let a = s.len() - trim_start(s).len();
    let t = trim_start(s);
    lemma_trim_end_bounds(t);
    let b = a + trim_end(t).len();
    assert(s.subrange(a, b) =~= trim(s));
    assert forall|j: int| b <= j < s.len() implies is_whitespace(s[j]) by {
        assert(s[j] == t[j - a]);
    }
    if trim(s).len() > 0 {
        assert(trim(s).first() == t[0]);
    }
}

/// `trim_start(s)` is the suffix of `s` that begins at its first
/// non-whitespace character.
pub proof fn lemma_trim_start_bounds(s: Seq<char>)
    ensures
        trim_start(s).len() <= s.len(),
        trim_start(s) == s.skip(s.len() - trim_start(s).len()),
        forall|j: int| 0 <= j < s.len() - trim_start(s).len() ==> is_whitespace(s[j]),
        trim_start(s).len() > 0 ==> !is_whitespace(trim_start(s)[0]),
    decreases s.len(),
{
    if s.len() > 0 && is_whitespace(s[0]) {
        let t = s.drop_first();
        lemma_trim_start_bounds(t);
        let a = s.len() - trim_start(s).len();
        assert(t.skip(a - 1) =~= s.skip(a));
        assert forall|j: int| 0 <= j < a implies is_whitespace(s[j]) by {
            if j > 0 {
                assert(s[j] == t[j - 1]);
            }
        }
    } else {
        assert(s.skip(0) =~= s);
    }
}

/// `trim_end(s)` is the prefix of `s` that stops after its last
/// non-whitespace character.
pub proof fn lemma_trim_end_bounds(s: Seq<char>)
    ensures
        trim_end(s).len() <= s.len(),
        trim_end(s) == s.take(trim_end(s).len() as int),
        forall|j: int| trim_end(s).len() <= j < s.len() ==> is_whitespace(s[j]),
        trim_end(s).len() > 0 ==> !is_whitespace(trim_end(s).last()),
    decreases s.len(),
{
    if s.len() > 0 && is_whitespace(s.last()) {
        let t = s.drop_last();
        lemma_trim_end_bounds(t);
        let b = trim_end(s).len() as int;
        assert(t.take(b) =~= s.take(b));
        assert forall|j: int| b <= j < s.len() implies is_whitespace(s[j]) by {
            if j < s.len() - 1 {
                assert(s[j] == t[j]);
            }
        }
    } else {
        assert(s.take(s.len() as int) =~= s);
    }
}

/// Whether `c` is a whitespace character.
pub fn char_is_whitespace(c: char) -> (r: bool)
    ensures
        r == is_whitespace(c),
{
    let u: u32 = c as u32;
    (0x09 <= u && u <= 0x0D) || u == 0x20 || u == 0x85 || u == 0xA0 || u == 0x1680 || (0x2000 <= u
        && u <= 0x200A) || u == 0x2028 || u == 0x2029 || u == 0x202F || u == 0x205F || u == 0x3000
}

/// Owned copy of `s` without its leading and trailing whitespace.
pub fn trimmed(s: &str) -> (r: String)
    ensures
        r@ == trim(s@),
{
    let cs = chars_of(s);
    let n: usize = cs.len();
    let mut a: usize = 0;
    while a < n && char_is_whitespace(cs[a])
        invariant
            n == cs.len(),
            a <= n,
            forall|j: int| 0 <= j < a ==> is_whitespace(cs@[j]),
        decreases n - a,
    {
        a = a + 1;
    }
    let mut b: usize = n;
    while b > a && char_is_whitespace(cs[b - 1])
        invariant
            n == cs.len(),
            a <= b <= n,
            forall|j: int| b <= j < n ==> is_whitespace(cs@[j]),
        decreases b,
    {
        b = b - 1;
    }
    proof {
        let t = cs@.skip(a as int);
        lemma_trim_start_skip(cs@, a as int);
        assert(trim_start(t) == t);
        assert forall|j: int| b - a <= j < t.len() implies is_whitespace(t[j]) by {
            assert(t[j] == cs@[j + a]);
        }
        lemma_trim_end_take(t, b - a);
        let u = t.take(b - a);
        assert(u =~= cs@.subrange(a as int, b as int));
        if u.len() > 0 {
            assert(u.last() == cs@[b - 1]);
        }
        assert(trim_end(u) == u);
    }
    substring(s, a, b)
}


/// Whether the characters `v` begin with `prefix`.
pub fn starts_with(v: &Vec<char>, prefix: &str) -> (r: bool)
    ensures
        r == prefix@.is_prefix_of(v@),
{
    let p = chars_of(prefix);
    if p.len() > v.len() {
        return false;
    }
    let mut i: usize = 0;
    while i < p.len()
        invariant
            p@ == prefix@,
            p.len() <= v.len(),
            i <= p.len(),
            forall|j: int| 0 <= j < i ==> p@[j] == v@[j],
        decreases p.len() - i,
    {
        if p[i] != v[i] {
            proof {
                assert(v@.subrange(0, p.len() as int)[i as int] == v@[i as int]);
            }
            return false;
        }
        i = i + 1;
    }
    proof {
        assert(p@ =~= v@.subrange(0, p.len() as int));
    }
    true
}

} // verus!
