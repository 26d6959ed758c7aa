use vstd::prelude::*;

verus! {

/// Whether `c` has the Unicode `White_Space` property: the controls U+0009 to U+000D, the
/// space, U+0085, the no-break space U+00A0, U+1680, the spaces U+2000 to U+200A, the line
/// and paragraph separators U+2028 and U+2029, U+202F, U+205F and U+3000.
pub open spec fn spec_is_whitespace(c: char) -> bool {
    let v = c as u32;
    ||| 0x9 <= v <= 0xd
    ||| v == 0x20
    ||| v == 0x85
    ||| v == 0xa0
    ||| v == 0x1680
    ||| 0x2000 <= v <= 0x200a
    ||| v == 0x2028
    ||| v == 0x2029
    ||| v == 0x202f
    ||| v == 0x205f
    ||| v == 0x3000
}

/// `char::is_whitespace`: whether `c` has the Unicode `White_Space` property, which its
/// documentation names and the Unicode character database lists (see [`spec_is_whitespace`]).
#[verifier::external_body]
pub(crate) fn is_whitespace(c: char) -> (r: bool)
    ensures
        r == spec_is_whitespace(c),
{
    c.is_whitespace()
}

/// The lowercase form of `s` that `str::to_lowercase` returns (Unicode lowercase mapping).
pub uninterp spec fn spec_to_lowercase(s: Seq<char>) -> Seq<char>;

/// Whether every character of `s` is ASCII.
pub open spec fn all_ascii(s: Seq<char>) -> bool {
    forall|i: int| 0 <= i < s.len() ==> (#[trigger] s[i] as u32) < 0x80
}

/// The ASCII lowercase form of `c`: `A` to `Z` become `a` to `z`; any other character stays.
pub open spec fn ascii_lower(c: char) -> char {
    if 'A' <= c && c <= 'Z' {
        ((c as u32) + 0x20) as char
    } else {
        c
    }
}

/// `str::to_lowercase`: the Unicode lowercase form of `s`. The contract names the result; of
/// the case mapping it states only what it does to text made of ASCII characters alone, where
/// `A` to `Z` become `a` to `z` and every other character stays.
#[verifier::external_body]
pub(crate) fn to_lowercase(s: &str) -> (r: String)
    ensures
        r@ == spec_to_lowercase(s@),
        all_ascii(s@) ==> r@ == s@.map_values(|c: char| ascii_lower(c)),
{
    s.to_lowercase()
}

/// `String::push`: appends `c` to the end of `s`.
#[verifier::external_body]
pub(crate) fn string_push(s: &mut String, c: char)
    ensures
        final(s)@ == old(s)@.push(c),
{
    s.push(c);
}

/// `String::pop`: removes the last character of `s` and returns it, or returns `None` and
/// leaves `s` as it is when `s` is empty.
#[verifier::external_body]
pub(crate) fn string_pop(s: &mut String) -> (r: Option<char>)
    ensures
        old(s)@.len() == 0 ==> r is None && final(s)@ == old(s)@,
        old(s)@.len() > 0 ==> r == Some(old(s)@.last()) && final(s)@ == old(s)@.drop_last(),
{
    s.pop()
}

/// The characters of `s`, in order.
pub fn chars_of(s: &str) -> (r: Vec<char>)
    ensures
        r@ == s@,
{
    let mut r: Vec<char> = Vec::new();
    for c in it: s.chars()
        invariant
            r@ == it.seq().take(it.index() as int),
            it.seq() == s@,
    {
        r.push(c);
    }
    assert(s@.take(s@.len() as int) =~= s@);
    r
}

/// The string made of the characters of `v`, in order.
pub fn string_from_chars(v: &Vec<char>) -> (r: String)
    ensures
        r@ == v@,
{
    let mut r = String::new();
    for i in 0..v.len()
        invariant
            r@ == v@.take(i as int),
    {
        string_push(&mut r, v[i]);
        assert(v@.take(i as int).push(v@[i as int]) =~= v@.take(i + 1));
    }
    assert(v@.take(v@.len() as int) =~= v@);
    r
}

/// Appends the characters of `s` to `v`.
pub fn push_str_chars(v: &mut Vec<char>, s: &str)
    ensures
        final(v)@ == old(v)@ + s@,
{
    for c in it: s.chars()
        invariant
            v@ == old(v)@ + it.seq().take(it.index() as int),
            it.seq() == s@,
    {
        v.push(c);
        assert(old(v)@ + it.seq().take(it.index() as int).push(c) =~= old(v)@ + it.seq().take(it.index() + 1));
    }
    assert(s@.take(s@.len() as int) =~= s@);
}

/// Appends the characters of `s` to `v`.
pub fn push_chars(v: &mut Vec<char>, s: &Vec<char>)
    ensures
        final(v)@ == old(v)@ + s@,
{
    for i in 0..s.len()
        invariant
            v@ == old(v)@ + s@.take(i as int),
    {
        v.push(s[i]);
        assert(old(v)@ + s@.take(i as int).push(s@[i as int]) =~= old(v)@ + s@.take(i + 1));
    }
    assert(s@.take(s@.len() as int) =~= s@);
}

/// Whether `a` and `b` hold the same characters.
pub fn chars_eq(a: &Vec<char>, b: &str) -> (r: bool)
    ensures
        r == (a@ == b@),
{
    let bv = chars_of(b);
    if a.len() != bv.len() {
        return false;
    }
    for i in 0..a.len()
        invariant
            a@.len() == bv@.len(),
            bv@ == b@,
            forall|j: int| 0 <= j < i ==> a@[j] == bv@[j],
    {
        if a[i] != bv[i] {
            return false;
        }
    }
    assert(a@ =~= bv@);
    true
}

/// `s` without its leading whitespace.
pub open spec fn trim_start(s: Seq<char>) -> Seq<char>
    decreases s.len(),
{
    if s.len() > 0 && spec_is_whitespace(s[0]) {
        trim_start(s.drop_first())
    } else {
        s
    }
}

/// `s` without its trailing whitespace.
pub open spec fn trim_end(s: Seq<char>) -> Seq<char>
    decreases s.len(),
{
    if s.len() > 0 && spec_is_whitespace(s.last()) {
        trim_end(s.drop_last())
    } else {
        s
    }
}

/// `s` without leading and trailing whitespace (what `str::trim` gives).
pub open spec fn trim(s: Seq<char>) -> Seq<char> {
    trim_end(trim_start(s))
}

/// The words found after reading `s`, and the word being read, splitting at whitespace.
pub open spec fn split_state(s: Seq<char>) -> (Seq<Seq<char>>, Seq<char>)
    decreases s.len(),
{
    if s.len() == 0 {
        (Seq::empty(), Seq::empty())
    } else {
        let (done, cur) = split_state(s.drop_last());
        let c = s.last();
        if spec_is_whitespace(c) {
            if cur.len() > 0 {
                (done.push(cur), Seq::empty())
            } else {
                (done, Seq::empty())
            }
        } else {
            (done, cur.push(c))
        }
    }
}

/// The maximal runs of non-whitespace characters of `s`, in order (what
/// `str::split_whitespace` gives).
pub open spec fn words(s: Seq<char>) -> Seq<Seq<char>> {
    let (done, cur) = split_state(s);
    if cur.len() > 0 {
        done.push(cur)
    } else {
        done
    }
}

/// A line with the carriage return that ends it, if any, removed.
pub open spec fn strip_cr(s: Seq<char>) -> Seq<char> {
    if s.len() > 0 && s.last() == '\r' {
        s.drop_last()
    } else {
        s
    }
}

/// The complete lines found after reading `s`, and the line being read.
pub open spec fn line_state(s: Seq<char>) -> (Seq<Seq<char>>, Seq<char>)
    decreases s.len(),
{
    if s.len() == 0 {
        (Seq::empty(), Seq::empty())
    } else {
        let (done, cur) = line_state(s.drop_last());
        let c = s.last();
        if c == '\n' {
            (done.push(strip_cr(cur)), Seq::empty())
        } else {
            (done, cur.push(c))
        }
    }
}

/// The lines of `s`, split at `\n` with a `\r` before it removed, a final line ending being
/// optional (what `str::lines` gives).
pub open spec fn lines(s: Seq<char>) -> Seq<Seq<char>> {
    let (done, cur) = line_state(s);
    if cur.len() > 0 {
        done.push(cur)
    } else {
        done
    }
}

/// Leading whitespace does not change where the trimmed start is.
proof fn lemma_trim_start_skip(s: Seq<char>, i: int)
    requires
        0 <= i <= s.len(),
        forall|j: int| 0 <= j < i ==> spec_is_whitespace(#[trigger] s[j]),
    ensures
        trim_start(s) == trim_start(s.skip(i)),
    decreases i,
{
    if i == 0 {
        assert(s.skip(0) =~= s);
    } else {
        assert(spec_is_whitespace(s[0]));
        assert(s.drop_first().skip(i - 1) =~= s.skip(i));
        assert forall|j: int| 0 <= j < i - 1 implies spec_is_whitespace(#[trigger] s.drop_first()[j]) by {
            assert(s.drop_first()[j] == s[j + 1]);
        }
        lemma_trim_start_skip(s.drop_first(), i - 1);
    }
}

/// Trailing whitespace does not change where the trimmed end is.
proof fn lemma_trim_end_take(s: Seq<char>, i: int)
    requires
        0 <= i <= s.len(),
        forall|j: int| i <= j < s.len() ==> spec_is_whitespace(#[trigger] s[j]),
    ensures
        trim_end(s) == trim_end(s.take(i)),
    decreases s.len() - i,
{
    if i < s.len() {
        assert(s.drop_last().take(i) =~= s.take(i));
        assert forall|j: int| i <= j < s.len() - 1 implies spec_is_whitespace(#[trigger] s.drop_last()[j]) by {
            assert(s.drop_last()[j] == s[j]);
        }
        lemma_trim_end_take(s.drop_last(), i);
    } else {
        assert(s.take(i) =~= s);
    }
}

/// The characters of `s` without leading and trailing whitespace.
pub fn trim_chars(s: &Vec<char>) -> (r: Vec<char>)
    ensures
        r@ == trim(s@),
{
    let n = s.len();
    let mut start: usize = 0;
    while start < n && is_whitespace(s[start])
        invariant
            n == s@.len(),
            start <= n,
            forall|j: int| 0 <= j < start ==> spec_is_whitespace(#[trigger] s@[j]),
        decreases n - start,
    {
        start = start + 1;
    }
    proof {
        lemma_trim_start_skip(s@, start as int);
    }
    let ghost rest = s@.skip(start as int);
    assert(rest.len() == 0 || !spec_is_whitespace(rest[0]));
    assert(trim_start(s@) == rest);
    let mut end: usize = n;
    while end > start && is_whitespace(s[end - 1])
        invariant
            n == s@.len(),
            start <= end <= n,
            rest == s@.skip(start as int),
            forall|j: int| end - start <= j < rest.len() ==> spec_is_whitespace(#[trigger] rest[j]),
        decreases end - start,
    {
        end = end - 1;
    }
    proof {
        lemma_trim_end_take(rest, end - start);
    }
    let ghost kept = rest.take(end - start);
    assert(kept.len() == 0 || !spec_is_whitespace(kept.last()));
    let mut out: Vec<char> = Vec::new();
    for i in start..end
        invariant
            n == s@.len(),
            start <= end <= n,
            out@ == s@.subrange(start as int, i as int),
    {
        out.push(s[i]);
        assert(s@.subrange(start as int, i + 1) =~= s@.subrange(start as int, i as int).push(s@[i as int]));
    }
    assert(out@ =~= kept);
    out
}

/// The maximal runs of non-whitespace characters of `s`, in order.
pub fn split_words(s: &Vec<char>) -> (r: Vec<Vec<char>>)
    ensures
        r@.len() == words(s@).len(),
        forall|i: int| 0 <= i < r@.len() ==> #[trigger] r@[i]@ == words(s@)[i],
{
    let mut done: Vec<Vec<char>> = Vec::new();
    let mut cur: Vec<char> = Vec::new();
    for i in 0..s.len()
        invariant
            done@.len() == split_state(s@.take(i as int)).0.len(),
            forall|k: int| 0 <= k < done@.len() ==> #[trigger] done@[k]@ == split_state(s@.take(i as int)).0[k],
            cur@ == split_state(s@.take(i as int)).1,
    {
        assert(s@.take(i + 1).drop_last() =~= s@.take(i as int));
        let c = s[i];
        if is_whitespace(c) {
            if cur.len() > 0 {
                let w = cur;
                done.push(w);
                cur = Vec::new();
            }
        } else {
            cur.push(c);
        }
    }
    assert(s@.take(s@.len() as int) =~= s@);
    if cur.len() > 0 {
        done.push(cur);
    }
    done
}

/// The lines of `s`: split at `\n`, a `\r` before it removed, a final line ending optional.
pub fn split_lines(s: &Vec<char>) -> (r: Vec<Vec<char>>)
    ensures
        r@.len() == lines(s@).len(),
        forall|i: int| 0 <= i < r@.len() ==> #[trigger] r@[i]@ == lines(s@)[i],
{
    let mut done: Vec<Vec<char>> = Vec::new();
    let mut cur: Vec<char> = Vec::new();
    for i in 0..s.len()
        invariant
            done@.len() == line_state(s@.take(i as int)).0.len(),
            forall|k: int| 0 <= k < done@.len() ==> #[trigger] done@[k]@ == line_state(s@.take(i as int)).0[k],
            cur@ == line_state(s@.take(i as int)).1,
    {
        assert(s@.take(i + 1).drop_last() =~= s@.take(i as int));
        let c = s[i];
        if c == '\n' {
            let mut line = cur;
            let len = line.len();
            if len > 0 && line[len - 1] == '\r' {
                line.pop();
            }
            done.push(line);
            cur = Vec::new();
        } else {
            cur.push(c);
        }
    }
    assert(s@.take(s@.len() as int) =~= s@);
    if cur.len() > 0 {
        done.push(cur);
    }
    done
}

/// Whether `s` starts with the characters of `prefix`.
pub fn starts_with_str(s: &Vec<char>, prefix: &str) -> (r: bool)
    ensures
        r == (prefix@.len() <= s@.len() && s@.take(prefix@.len() as int) == prefix@),
{
    let p = chars_of(prefix);
    if p.len() > s.len() {
        return false;
    }
    for i in 0..p.len()
        invariant
            p@ == prefix@,
            p@.len() <= s@.len(),
            forall|j: int| 0 <= j < i ==> s@[j] == p@[j],
    {
        if s[i] != p[i] {
            assert(s@.take(p@.len() as int)[i as int] != p@[i as int]);
            return false;
        }
    }
    assert(s@.take(p@.len() as int) =~= p@);
    true
}

/// The characters of `s` from position `from` on.
pub fn chars_from(s: &Vec<char>, from: usize) -> (r: Vec<char>)
    requires
        from <= s@.len(),
    ensures
        r@ == s@.skip(from as int),
{
    let mut out: Vec<char> = Vec::new();
    for i in from..s.len()
        invariant
            from <= s@.len(),
            out@ == s@.subrange(from as int, i as int),
    {
        out.push(s[i]);
        assert(s@.subrange(from as int, i + 1) =~= s@.subrange(from as int, i as int).push(s@[i as int]));
    }
    assert(out@ =~= s@.skip(from as int));
    out
}

/// Text that ends with a line ending (or is empty) leaves no line being read.
pub proof fn lemma_line_state_complete(a: Seq<char>)
    requires
        a.len() == 0 || a.last() == '\n',
    ensures
        line_state(a).1 == Seq::<char>::empty(),
{
}

/// Reading `b` after text that leaves no line being read goes on as reading `b` alone, after
/// the lines already found.
pub proof fn lemma_line_state_concat(a: Seq<char>, b: Seq<char>)
    requires
        line_state(a).1 == Seq::<char>::empty(),
    ensures
        line_state(a + b) == (line_state(a).0 + line_state(b).0, line_state(b).1),
    decreases b.len(),
{
    if b.len() == 0 {
        assert(a + b =~= a);
        assert(line_state(a).0 + Seq::<Seq<char>>::empty() =~= line_state(a).0);
    } else {
        lemma_line_state_concat(a, b.drop_last());
        assert((a + b).drop_last() =~= a + b.drop_last());
        assert((a + b).last() == b.last());
        let (da, ca) = line_state(a);
        let (db, cb) = line_state(b.drop_last());
        assert((da + db).push(strip_cr(cb)) =~= da + db.push(strip_cr(cb)));
    }
}

/// The lines of text that ends with a line ending (or is empty), followed by any text, are
/// the lines of the first text, then those of the second.
pub proof fn lemma_lines_concat(a: Seq<char>, b: Seq<char>)
    requires
        a.len() == 0 || a.last() == '\n',
    ensures
        lines(a + b) == lines(a) + lines(b),
{
    lemma_line_state_complete(a);
    lemma_line_state_concat(a, b);
    let (db, cb) = line_state(b);
    let da = line_state(a).0;
    assert(lines(a) == da);
    if cb.len() > 0 {
        assert((da + db).push(cb) =~= da + db.push(cb));
    }
}

/// Text without a line ending is read as one line still being read.
pub proof fn lemma_line_state_one_line(s: Seq<char>)
    requires
        forall|i: int| 0 <= i < s.len() ==> s[i] != '\n',
    ensures
        line_state(s) == (Seq::<Seq<char>>::empty(), s),
    decreases s.len(),
{
    if s.len() == 0 {
        assert(s =~= Seq::<char>::empty());
    } else {
        lemma_line_state_one_line(s.drop_last());
        assert(s.drop_last().push(s.last()) =~= s);
    }
}

/// A line without a line ending, followed by one, is one line, without a carriage return
/// that ended it.
pub proof fn lemma_lines_one_line(s: Seq<char>)
    requires
        forall|i: int| 0 <= i < s.len() ==> s[i] != '\n',
    ensures
        lines(s.push('\n')) == seq![strip_cr(s)],
{
    lemma_line_state_one_line(s);
    assert(s.push('\n').drop_last() =~= s);
    assert(Seq::<Seq<char>>::empty().push(strip_cr(s)) =~= seq![strip_cr(s)]);
}

/// Dropping trailing whitespace does not change the trimmed text.
pub proof fn lemma_trim_drop_last_space(s: Seq<char>)
    requires
        s.len() > 0,
        spec_is_whitespace(s.last()),
    ensures
        trim(s.drop_last()) == trim(s),
    decreases s.len(),
{
    if s.len() == 1 {
        assert(s.drop_last() =~= Seq::<char>::empty());
        assert(trim_start(s.drop_first()) == s.drop_first());
        assert(s.drop_first() =~= Seq::<char>::empty());
    } else if spec_is_whitespace(s[0]) {
        lemma_trim_drop_last_space(s.drop_first());
        assert(s.drop_last().drop_first() =~= s.drop_first().drop_last());
        assert(s.drop_last()[0] == s[0]);
    } else {
        assert(s.drop_last()[0] == s[0]);
        assert(trim_start(s) == s);
        assert(trim_start(s.drop_last()) == s.drop_last());
    }
}

/// Removing the carriage return that ends a line does not change the trimmed line.
pub proof fn lemma_trim_strip_cr(s: Seq<char>)
    ensures
        trim(strip_cr(s)) == trim(s),
{
    if s.len() > 0 && s.last() == '\r' {
        assert(spec_is_whitespace('\r'));
        lemma_trim_drop_last_space(s);
    }
}

/// Trimming the start drops a run of leading whitespace.
pub proof fn lemma_trim_start_drops_space(s: Seq<char>)
    ensures
        trim_start(s).len() <= s.len(),
        trim_start(s) == s.skip(s.len() - trim_start(s).len()),
        forall|j: int| 0 <= j < s.len() - trim_start(s).len() ==> spec_is_whitespace(#[trigger] s[j]),
    decreases s.len(),
{
    if s.len() > 0 && spec_is_whitespace(s[0]) {
        lemma_trim_start_drops_space(s.drop_first());
        let k = s.len() - trim_start(s).len();
        assert(s.drop_first().skip(k - 1) =~= s.skip(k));
        assert forall|j: int| 0 <= j < k implies spec_is_whitespace(#[trigger] s[j]) by {
            if j > 0 {
                assert(s[j] == s.drop_first()[j - 1]);
            }
        }
    } else {
        assert(s.skip(0) =~= s);
    }
}

/// Trimming the end drops a run of trailing whitespace.
pub proof fn lemma_trim_end_drops_space(s: Seq<char>)
    ensures
        trim_end(s).len() <= s.len(),
        trim_end(s) == s.take(trim_end(s).len() as int),
        forall|j: int| trim_end(s).len() <= j < s.len() ==> spec_is_whitespace(#[trigger] s[j]),
    decreases s.len(),
{
    if s.len() > 0 && spec_is_whitespace(s.last()) {
        lemma_trim_end_drops_space(s.drop_last());
        let k = trim_end(s).len() as int;
        assert(s.drop_last().take(k) =~= s.take(k));
        assert forall|j: int| k <= j < s.len() implies spec_is_whitespace(#[trigger] s[j]) by {
            if j < s.len() - 1 {
                assert(s[j] == s.drop_last()[j]);
            }
        }
    } else {
        assert(s.take(s.len() as int) =~= s);
    }
}

/// Reading `b` after text that leaves no word being read goes on as reading `b` alone, after
/// the words already found.
pub proof fn lemma_split_state_concat(a: Seq<char>, b: Seq<char>)
    requires
        split_state(a).1 == Seq::<char>::empty(),
    ensures
        split_state(a + b) == (split_state(a).0 + split_state(b).0, split_state(b).1),
    decreases b.len(),
{
    if b.len() == 0 {
        assert(a + b =~= a);
        assert(split_state(a).0 + Seq::<Seq<char>>::empty() =~= split_state(a).0);
    } else {
        lemma_split_state_concat(a, b.drop_last());
        assert((a + b).drop_last() =~= a + b.drop_last());
        assert((a + b).last() == b.last());
        let (da, ca) = split_state(a);
        let (db, cb) = split_state(b.drop_last());
        assert((da + db).push(cb) =~= da + db.push(cb));
    }
}

/// Whitespace alone holds no word.
pub proof fn lemma_split_state_spaces(w: Seq<char>)
    requires
        forall|j: int| 0 <= j < w.len() ==> spec_is_whitespace(#[trigger] w[j]),
    ensures
        split_state(w) == (Seq::<Seq<char>>::empty(), Seq::<char>::empty()),
    decreases w.len(),
{
    if w.len() > 0 {
        assert forall|j: int| 0 <= j < w.len() - 1 implies spec_is_whitespace(#[trigger] w.drop_last()[j]) by {
            assert(w.drop_last()[j] == w[j]);
        }
        lemma_split_state_spaces(w.drop_last());
        assert(spec_is_whitespace(w[w.len() - 1]));
    }
}

/// Trailing whitespace adds no word.
pub proof fn lemma_words_trailing_space(x: Seq<char>, w: Seq<char>)
    requires
        forall|j: int| 0 <= j < w.len() ==> spec_is_whitespace(#[trigger] w[j]),
    ensures
        words(x + w) == words(x),
    decreases w.len(),
{
    if w.len() == 0 {
        assert(x + w =~= x);
    } else {
        assert forall|j: int| 0 <= j < w.len() - 1 implies spec_is_whitespace(#[trigger] w.drop_last()[j]) by {
            assert(w.drop_last()[j] == w[j]);
        }
        lemma_words_trailing_space(x, w.drop_last());
        assert((x + w).drop_last() =~= x + w.drop_last());
        assert((x + w).last() == w[w.len() - 1]);
    }
}

/// Trimming a text does not change its words.
pub proof fn lemma_words_trim(s: Seq<char>)
    ensures
        words(trim(s)) == words(s),
{
    lemma_trim_start_drops_space(s);
    let u = trim_start(s);
    let i = s.len() - u.len();
    lemma_trim_end_drops_space(u);
    let m = trim_end(u).len() as int;
    assert(s =~= s.take(i) + u);
    assert forall|j: int| 0 <= j < s.take(i).len() implies spec_is_whitespace(#[trigger] s.take(i)[j]) by {
        assert(s.take(i)[j] == s[j]);
    }
    lemma_split_state_spaces(s.take(i));
    lemma_split_state_concat(s.take(i), u);
    assert(Seq::<Seq<char>>::empty() + split_state(u).0 =~= split_state(u).0);
    assert(u =~= u.take(m) + u.skip(m));
    assert forall|j: int| 0 <= j < u.skip(m).len() implies spec_is_whitespace(#[trigger] u.skip(m)[j]) by {
        assert(u.skip(m)[j] == u[m + j]);
    }
    lemma_words_trailing_space(u.take(m), u.skip(m));
}

/// A one-character word and a space, then any text: that word, then the words of the text.
pub proof fn lemma_words_after_letter(p: char, x: Seq<char>)
    requires
        !spec_is_whitespace(p),
    ensures
        words(seq![p, ' '] + x) == seq![seq![p]] + words(x),
{
    let a = seq![p, ' '];
    assert(a.drop_last() =~= seq![p]);
    assert(seq![p].drop_last() =~= Seq::<char>::empty());
    assert(Seq::<char>::empty().push(p) =~= seq![p]);
    assert(spec_is_whitespace(' '));
    assert(split_state(Seq::<char>::empty()) == (Seq::<Seq<char>>::empty(), Seq::<char>::empty()));
    assert(seq![p].last() == p);
    assert(a.last() == ' ');
    assert(split_state(seq![p]) == (Seq::<Seq<char>>::empty(), seq![p]));
    assert(split_state(a) == (seq![seq![p]], Seq::<char>::empty()));
    lemma_split_state_concat(a, x);
    let (dx, cx) = split_state(x);
    if cx.len() > 0 {
        assert((seq![seq![p]] + dx).push(cx) =~= seq![seq![p]] + dx.push(cx));
    }
}

} // verus!
