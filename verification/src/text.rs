//! Character-level text handling: lines, white space, trimming, prefixes and
//! substring search, each stated over `Seq<char>` and implemented over `Vec<char>`.
use vstd::prelude::*;

verus! {

broadcast use vstd::string::group_string_axioms;

/// Unicode's `White_Space` property, which `char::is_whitespace` (and so
/// `str::trim`) tests.
pub open spec fn is_white_space(c: char) -> bool {
    let u = c as u32;
    ||| 0x9 <= u <= 0xd
    ||| u == 0x20
    ||| u == 0x85
    ||| u == 0xa0
    ||| u == 0x1680
    ||| 0x2000 <= u <= 0x200a
    ||| u == 0x2028
    ||| u == 0x2029
    ||| u == 0x202f
    ||| u == 0x205f
    ||| u == 0x3000
}

/// `s` without its leading white space.
pub open spec fn trim_start(s: Seq<char>) -> Seq<char>
    decreases s.len(),
{
    if s.len() > 0 && is_white_space(s[0]) {
        trim_start(s.drop_first())
    } else {
        s
    }
}

/// `s` without its trailing white space.
pub open spec fn trim_end(s: Seq<char>) -> Seq<char>
    decreases s.len(),
{
    if s.len() > 0 && is_white_space(s.last()) {
        trim_end(s.drop_last())
    } else {
        s
    }
}

/// `s` without leading and trailing white space (`str::trim`).
pub open spec fn trim(s: Seq<char>) -> Seq<char> {
    trim_end(trim_start(s))
}

/// The offset of the first line feed in `s`, or `s.len()` where there is none.
pub open spec fn newline_offset(s: Seq<char>) -> nat
    decreases s.len(),
{
    if s.len() == 0 {
        0
    } else if s[0] == '\n' {
        0
    } else {
        1 + newline_offset(s.drop_first())
    }
}

/// `s` without one trailing carriage return, if it ends with one.
pub open spec fn strip_carriage_return(s: Seq<char>) -> Seq<char> {
    if s.len() > 0 && s.last() == '\r' {
        s.drop_last()
    } else {
        s
    }
}

/// The lines of `s`, as `str::lines` yields them: split at each line feed, a
/// carriage return just before a line feed dropped, and no empty line after a
/// final line feed.
pub open spec fn lines(s: Seq<char>) -> Seq<Seq<char>>
    decreases s.len(),
{
    if s.len() == 0 {
        seq![]
    } else {
        let k = newline_offset(s);
        if k >= s.len() {
            seq![s]
        } else {
            seq![strip_carriage_return(s.take(k as int))] + lines(s.skip(k + 1int))
        }
    }
}

/// Whether `s` begins with `prefix` (`str::starts_with`).
pub open spec fn starts_with(s: Seq<char>, prefix: Seq<char>) -> bool {
    prefix.len() <= s.len() && s.take(prefix.len() as int) == prefix
}

/// Whether `needle` occurs in `hay` as a contiguous run (`str::contains`).
pub open spec fn contains_run(hay: Seq<char>, needle: Seq<char>) -> bool {
    exists|i: int|
        0 <= i && i + needle.len() <= hay.len() && #[trigger] hay.subrange(i, i + needle.len())
            == needle
}

/// What `newline_offset` finds: no line feed before it, and a line feed at it
/// unless it is the end.
pub proof fn lemma_newline_offset_props(s: Seq<char>)
    ensures
        newline_offset(s) <= s.len(),
        forall|j: int| 0 <= j < newline_offset(s) ==> s[j] != '\n',
        newline_offset(s) < s.len() ==> s[newline_offset(s) as int] == '\n',
    decreases s.len(),
{
    if s.len() > 0 && s[0] != '\n' {
        let t = s.drop_first();
        lemma_newline_offset_props(t);
        assert forall|j: int| 0 <= j < newline_offset(s) implies s[j] != '\n' by {
            if j > 0 {
                assert(s[j] == t[j - 1]);
            }
        }
    }
}

proof fn lemma_trim_start_push(y: Seq<char>, c: char)
    ensures
        trim_start(y.push(c)) == if trim_start(y).len() == 0 {
            trim_start(seq![c])
        } else {
            trim_start(y).push(c)
        },
    decreases y.len(),
{
    if y.len() == 0 {
        assert(y.push(c) =~= seq![c]);
    } else if is_white_space(y[0]) {
        assert(y.push(c).drop_first() =~= y.drop_first().push(c));
        lemma_trim_start_push(y.drop_first(), c);
    } else {
        assert(y.push(c)[0] == y[0]);
    }
}

/// A carriage return at the end makes no difference once white space is trimmed.
pub proof fn lemma_trim_strip_carriage_return(x: Seq<char>)
    ensures
        trim(strip_carriage_return(x)) == trim(x),
{
    if x.len() > 0 && x.last() == '\r' {
        let y = x.drop_last();
        assert(x =~= y.push('\r'));
        assert(strip_carriage_return(x) == y);
        assert(is_white_space('\r'));
        lemma_trim_start_push(y, '\r');
        let z = trim_start(y);
        if z.len() == 0 {
            let one = seq!['\r'];
            assert(one.drop_first() =~= Seq::<char>::empty());
            assert(trim_start(one) == trim_start(one.drop_first()));
            assert(trim_start(x) == Seq::<char>::empty());
        } else {
            let w = z.push('\r');
            assert(w.drop_last() =~= z);
            assert(trim_start(x) == w);
            assert(trim_end(w) == trim_end(z));
        }
    }
}

/// Whether every character of `s` is white space.
pub open spec fn all_white_space(s: Seq<char>) -> bool {
    forall|i: int| 0 <= i < s.len() ==> is_white_space(#[trigger] s[i])
}

proof fn lemma_trim_start_white_prefix(p: Seq<char>, y: Seq<char>)
    requires
        all_white_space(p),
    ensures
        trim_start(p + y) == trim_start(y),
    decreases p.len(),
{
    if p.len() > 0 {
        assert((p + y)[0] == p[0]);
        assert((p + y).drop_first() =~= p.drop_first() + y);
        assert(all_white_space(p.drop_first())) by {
            assert forall|i: int| 0 <= i < p.drop_first().len() implies is_white_space(
                #[trigger] p.drop_first()[i],
            ) by {
                assert(p.drop_first()[i] == p[i + 1]);
            }
        }
        lemma_trim_start_white_prefix(p.drop_first(), y);
    } else {
        assert(p + y =~= y);
    }
}

proof fn lemma_trim_start_white_suffix(y: Seq<char>, q: Seq<char>)
    requires
        all_white_space(q),
    ensures
        trim_start(y + q) == if trim_start(y).len() > 0 {
            trim_start(y) + q
        } else {
            Seq::<char>::empty()
        },
    decreases y.len(),
{
    if y.len() == 0 {
        assert(y + q =~= q + Seq::<char>::empty());
        lemma_trim_start_white_prefix(q, Seq::<char>::empty());
    } else if is_white_space(y[0]) {
        assert((y + q)[0] == y[0]);
        assert((y + q).drop_first() =~= y.drop_first() + q);
        lemma_trim_start_white_suffix(y.drop_first(), q);
    } else {
        assert((y + q)[0] == y[0]);
    }
}

proof fn lemma_trim_end_white_suffix(z: Seq<char>, q: Seq<char>)
    requires
        all_white_space(q),
    ensures
        trim_end(z + q) == trim_end(z),
    decreases q.len(),
{
    if q.len() > 0 {
        let r = q.drop_last();
        assert((z + q).last() == q.last());
        assert(is_white_space(q[q.len() - 1]));
        assert((z + q).drop_last() =~= z + r);
        assert(all_white_space(r)) by {
            assert forall|i: int| 0 <= i < r.len() implies is_white_space(#[trigger] r[i]) by {
                assert(r[i] == q[i]);
            }
        }
        lemma_trim_end_white_suffix(z, r);
    } else {
        assert(z + q =~= z);
    }
}

/// White space added before and after a text is trimmed away again.
pub proof fn lemma_trim_padded(p: Seq<char>, x: Seq<char>, q: Seq<char>)
    requires
        all_white_space(p),
        all_white_space(q),
    ensures
        trim(p + x + q) == trim(x),
{
    assert(p + x + q =~= p + (x + q));
    lemma_trim_start_white_prefix(p, x + q);
    lemma_trim_start_white_suffix(x, q);
    if trim_start(x).len() > 0 {
        lemma_trim_end_white_suffix(trim_start(x), q);
    } else {
        assert(trim_start(x) =~= Seq::<char>::empty());
    }
}

/// A text that neither begins nor ends with white space is its own trim.
pub proof fn lemma_trim_plain(x: Seq<char>)
    requires
        x.len() > 0,
        !is_white_space(x[0]),
        !is_white_space(x.last()),
    ensures
        trim(x) == x,
{
}

/// The characters of `s`, in order.
pub fn str_to_chars(s: &str) -> (res: Vec<char>)
    ensures
        res@ == s@,
{
    let mut out: Vec<char> = Vec::new();
    for c in it: s.chars()
        invariant
            it.seq() == s@,
            out@ == it.seq().take(it.index()),
    {
        out.push(c);
        assert(out@ == it.seq().take(it.index() + 1));
    }
    out
}

/// Whether `c` is white space (`char::is_whitespace`).
pub fn char_is_white_space(c: char) -> (res: bool)
    ensures
        res == is_white_space(c),
{
    let u = c as u32;
    (0x9 <= u && u <= 0xd) || u == 0x20 || u == 0x85 || u == 0xa0 || u == 0x1680 || (0x2000 <= u
        && u <= 0x200a) || u == 0x2028 || u == 0x2029 || u == 0x202f || u == 0x205f || u == 0x3000
}

proof fn lemma_trim_start_at_white_space(s: Seq<char>, a: int, hi: int)
    requires
        0 <= a < hi <= s.len(),
        is_white_space(s[a]),
    ensures
        trim_start(s.subrange(a, hi)) == trim_start(s.subrange(a + 1, hi)),
{
    assert(s.subrange(a, hi).drop_first() =~= s.subrange(a + 1, hi));
}

proof fn lemma_trim_end_at_white_space(s: Seq<char>, lo: int, b: int)
    requires
        0 <= lo < b <= s.len(),
        is_white_space(s[b - 1]),
    ensures
        trim_end(s.subrange(lo, b)) == trim_end(s.subrange(lo, b - 1)),
{
    assert(s.subrange(lo, b).drop_last() =~= s.subrange(lo, b - 1));
}

/// The bounds of `chars[lo..hi]` with its leading and trailing white space cut off.
pub fn trim_bounds(chars: &Vec<char>, lo: usize, hi: usize) -> (res: (usize, usize))
    requires
        lo <= hi <= chars.len(),
    ensures
        lo <= res.0 <= res.1 <= hi,
        chars@.subrange(res.0 as int, res.1 as int) == trim(chars@.subrange(lo as int, hi as int)),
{
    let mut a = lo;
    while a < hi && char_is_white_space(chars[a])
        invariant
            lo <= a <= hi <= chars.len(),
            trim_start(chars@.subrange(lo as int, hi as int)) == trim_start(
                chars@.subrange(a as int, hi as int),
            ),
        decreases hi - a,
    {
        proof {
            lemma_trim_start_at_white_space(chars@, a as int, hi as int);
        }
        a = a + 1;
    }
    assert(trim_start(chars@.subrange(a as int, hi as int)) == chars@.subrange(a as int, hi as int));
    let mut b = hi;
    while b > a && char_is_white_space(chars[b - 1])
        invariant
            lo <= a <= b <= hi <= chars.len(),
            trim_end(chars@.subrange(a as int, hi as int)) == trim_end(
                chars@.subrange(a as int, b as int),
            ),
        decreases b - a,
    {
        proof {
            lemma_trim_end_at_white_space(chars@, a as int, b as int);
        }
        b = b - 1;
    }
    (a, b)
}

/// The first line feed at or after `from` in `chars`, or `chars.len()`.
pub fn find_newline(chars: &Vec<char>, from: usize) -> (res: usize)
    requires
        from <= chars.len(),
    ensures
        from <= res <= chars.len(),
        res == from + newline_offset(chars@.skip(from as int)),
        res < chars.len() ==> chars@[res as int] == '\n',
        forall|j: int| from <= j < res ==> chars@[j] != '\n',
{
    let mut k = from;
    while k < chars.len() && chars[k] != '\n'
        invariant
            from <= k <= chars.len(),
            forall|j: int| from <= j < k ==> chars@[j] != '\n',
        decreases chars.len() - k,
    {
        k = k + 1;
    }
    proof {
        lemma_newline_offset(chars@.skip(from as int), (k - from) as int);
    }
    k
}

/// `newline_offset` finds the first line feed.
pub proof fn lemma_newline_offset(s: Seq<char>, k: int)
    requires
        0 <= k <= s.len(),
        forall|j: int| 0 <= j < k ==> s[j] != '\n',
        k == s.len() || s[k] == '\n',
    ensures
        newline_offset(s) == k,
    decreases k,
{
    if k > 0 {
        lemma_newline_offset(s.drop_first(), k - 1);
    }
}

/// Whether `chars[lo..hi]` begins with `prefix`.
pub fn has_prefix(chars: &Vec<char>, lo: usize, hi: usize, prefix: &Vec<char>) -> (res: bool)
    requires
        lo <= hi <= chars.len(),
    ensures
        res == starts_with(chars@.subrange(lo as int, hi as int), prefix@),
{
    if prefix.len() > hi - lo {
        return false;
    }
    let mut i: usize = 0;
    while i < prefix.len()
        invariant
            lo + prefix.len() <= hi <= chars.len(),
            i <= prefix.len(),
            forall|j: int| 0 <= j < i ==> chars@[lo + j] == prefix@[j],
        decreases prefix.len() - i,
    {
        if chars[lo + i] != prefix[i] {
            assert(chars@.subrange(lo as int, hi as int).take(prefix.len() as int)[i as int]
                != prefix@[i as int]);
            return false;
        }
        i = i + 1;
    }
    assert(chars@.subrange(lo as int, hi as int).take(prefix.len() as int) =~= prefix@);
    true
}

/// Whether `needle` occurs in `hay` at offset `at`.
fn occurs_at(hay: &Vec<char>, needle: &Vec<char>, at: usize) -> (res: bool)
    requires
        at + needle.len() <= hay.len(),
    ensures
        res == (hay@.subrange(at as int, at + needle.len()) == needle@),
{
    let mut i: usize = 0;
    while i < needle.len()
        invariant
            at + needle.len() <= hay.len(),
            i <= needle.len(),
            forall|j: int| 0 <= j < i ==> hay@[at + j] == needle@[j],
        decreases needle.len() - i,
    {
        if hay[at + i] != needle[i] {
            assert(hay@.subrange(at as int, at + needle.len())[i as int] != needle@[i as int]);
            return false;
        }
        i = i + 1;
    }
    assert(hay@.subrange(at as int, at + needle.len()) =~= needle@);
    true
}

/// Whether `needle` occurs in `hay` (`str::contains`).
pub fn contains_chars(hay: &Vec<char>, needle: &Vec<char>) -> (res: bool)
    ensures
        res == contains_run(hay@, needle@),
{
    if needle.len() > hay.len() {
        return false;
    }
    let last = hay.len() - needle.len();
    let mut at: usize = 0;
    loop
        invariant
            last + needle.len() == hay.len(),
            at <= last,
            forall|i: int|
                0 <= i < at ==> #[trigger] hay@.subrange(i, i + needle.len()) != needle@,
        decreases last - at,
    {
        if occurs_at(hay, needle, at) {
            return true;
        }
        if at == last {
            return false;
        }
        at = at + 1;
    }
}

/// `s` without leading and trailing white space (`str::trim`), as a new string.
pub fn trimmed(s: &str) -> (res: String)
    ensures
        res@ == trim(s@),
{
    let chars = str_to_chars(s);
    let (a, b) = trim_bounds(&chars, 0, chars.len());
    assert(chars@.subrange(0, chars.len() as int) =~= s@);
    s.substring_char(a, b).to_owned()
}

} // verus!
