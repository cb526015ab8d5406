use vstd::prelude::*;

verus! {

/// The characters that carry the Unicode `White_Space` property.
pub open spec fn is_space(c: char) -> bool {
    let u = c as u32;
    ||| 0x9 <= u <= 0xd
    ||| u == 0x20
    ||| u == 0x85
    ||| u == 0xa0
    ||| u == 0x1680
    ||| 0x2000 <= u <= 0x200a
    ||| u == 0x2028
    ||| u == 0x2029
    ||| u == 0x202f
    ||| u == 0x205f
    ||| u == 0x3000
}

/// Tells whether `c` is a Unicode white-space character.
pub fn is_space_char(c: char) -> (r: bool)
    ensures
        r == is_space(c),
{
    let u = c as u32;
    (0x9 <= u && u <= 0xd) || u == 0x20 || u == 0x85 || u == 0xa0 || u == 0x1680 || (0x2000 <= u
        && u <= 0x200a) || u == 0x2028 || u == 0x2029 || u == 0x202f || u == 0x205f || u == 0x3000
}

/// The characters of `s`, in order.
pub fn chars_of(s: &str) -> (v: Vec<char>)
    ensures
        v@ == s@,
{
    let mut v: Vec<char> = Vec::new();
    for c in it: s.chars()
        invariant
            v@ == it.seq().take(it.index() as int),
            it.seq() == s@,
    {
        v.push(c);
    }
    v
}

} // verus!

verus! {

/// One step of reading `s` left to right: the words finished so far and the word being read.
pub open spec fn word_step(st: (Seq<Seq<char>>, Seq<char>), c: char) -> (Seq<Seq<char>>, Seq<char>) {
    if is_space(c) {
        if st.1.len() > 0 {
            (st.0.push(st.1), Seq::empty())
        } else {
            st
        }
    } else {
        (st.0, st.1.push(c))
    }
}

/// The state reached after reading all of `s`.
pub open spec fn word_scan(s: Seq<char>) -> (Seq<Seq<char>>, Seq<char>)
    decreases s.len(),
{
    if s.len() == 0 {
        (Seq::empty(), Seq::empty())
    } else {
        word_step(word_scan(s.drop_last()), s.last())
    }
}

/// The words of `s`: its maximal runs of non-space characters, in order, as
/// `str::split_whitespace` yields them.
pub open spec fn words(s: Seq<char>) -> Seq<Seq<char>> {
    let st = word_scan(s);
    if st.1.len() > 0 {
        st.0.push(st.1)
    } else {
        st.0
    }
}

/// A word: non-empty and free of white space.
pub open spec fn is_word(w: Seq<char>) -> bool {
    w.len() > 0 && forall|k: int| 0 <= k < w.len() ==> !is_space(#[trigger] w[k])
}

proof fn lemma_word_scan_shape(s: Seq<char>)
    ensures
        forall|j: int| 0 <= j < word_scan(s).0.len() ==> is_word(#[trigger] word_scan(s).0[j]),
        forall|k: int| 0 <= k < word_scan(s).1.len() ==> !is_space(#[trigger] word_scan(s).1[k]),
    decreases s.len(),
{
    if s.len() > 0 {
        lemma_word_scan_shape(s.drop_last());
        let st = word_scan(s.drop_last());
        let c = s.last();
        if is_space(c) {
        } else {
            assert forall|k: int| 0 <= k < st.1.push(c).len() implies !is_space(
                #[trigger] st.1.push(c)[k],
            ) by {
                if k < st.1.len() {
                    assert(st.1.push(c)[k] == st.1[k]);
                }
            }
        }
    }
}

/// Every word of a text is non-empty and holds no white space.
pub proof fn lemma_words_are_words(s: Seq<char>)
    ensures
        forall|j: int| 0 <= j < words(s).len() ==> is_word(#[trigger] words(s)[j]),
{
    lemma_word_scan_shape(s);
    let st = word_scan(s);
    if st.1.len() > 0 {
        assert forall|j: int| 0 <= j < words(s).len() implies is_word(#[trigger] words(s)[j]) by {
            if j < st.0.len() {
                assert(words(s)[j] == st.0[j]);
            } else {
                assert(words(s)[j] == st.1);
            }
        }
    }
}

/// The character sequences held by a list of character vectors.
pub open spec fn seqs_of(v: Seq<Vec<char>>) -> Seq<Seq<char>> {
    v.map_values(|w: Vec<char>| w@)
}

/// The words of `s`, as `str::split_whitespace` yields them.
pub fn split_words(s: &Vec<char>) -> (r: Vec<Vec<char>>)
    ensures
        seqs_of(r@) == words(s@),
{
    let mut done: Vec<Vec<char>> = Vec::new();
    let mut cur: Vec<char> = Vec::new();
    let n = s.len();
    let mut i: usize = 0;
    while i < n
        invariant
            n == s@.len(),
            i <= n,
            (seqs_of(done@), cur@) == word_scan(s@.take(i as int)),
        decreases n - i,
    {
        let c = s[i];
        assert(s@.take(i + 1).drop_last() == s@.take(i as int));
        let ghost old_done = seqs_of(done@);
        let ghost old_cur = cur@;
        if is_space_char(c) {
            if cur.len() > 0 {
                let w = cur;
                done.push(w);
                cur = Vec::new();
                assert(seqs_of(done@) =~= old_done.push(old_cur));
            }
        } else {
            cur.push(c);
        }
        i = i + 1;
    }
    assert(s@.take(n as int) == s@);
    let ghost old_done = seqs_of(done@);
    let ghost old_cur = cur@;
    if cur.len() > 0 {
        done.push(cur);
        assert(seqs_of(done@) =~= old_done.push(old_cur));
    }
    done
}

} // verus!

verus! {

/// `ws` joined with single spaces.
pub open spec fn join_spaced(ws: Seq<Seq<char>>) -> Seq<char>
    decreases ws.len(),
{
    if ws.len() == 0 {
        Seq::empty()
    } else if ws.len() == 1 {
        ws[0]
    } else {
        join_spaced(ws.drop_last()) + seq![' '] + ws.last()
    }
}

/// All the sequences of `ss`, one after the other.
pub open spec fn flatten<A>(ss: Seq<Seq<A>>) -> Seq<A>
    decreases ss.len(),
{
    if ss.len() == 0 {
        Seq::empty()
    } else {
        flatten(ss.drop_last()) + ss.last()
    }
}

/// The text made of the characters of `v`.
#[verifier::external_body]
pub(crate) fn string_from_chars(v: &Vec<char>) -> (s: String)
    ensures
        s@ == v@,
{
    v.iter().collect()
}

/// Appends the characters of `src` to `dst`.
pub fn push_all(dst: &mut Vec<char>, src: &Vec<char>)
    ensures
        final(dst)@ == old(dst)@ + src@,
{
    let n = src.len();
    let mut i: usize = 0;
    while i < n
        invariant
            n == src@.len(),
            i <= n,
            dst@ == old(dst)@ + src@.take(i as int),
        decreases n - i,
    {
        dst.push(src[i]);
        assert(src@.take(i + 1) == src@.take(i as int).push(src@[i as int]));
        i = i + 1;
    }
    assert(src@.take(n as int) == src@);
}

} // verus!

verus! {

proof fn lemma_scan_push(s: Seq<char>, c: char)
    ensures
        word_scan(s.push(c)) == word_step(word_scan(s), c),
{
    assert(s.push(c).drop_last() == s);
}

proof fn lemma_scan_word_after_break(p: Seq<char>, w: Seq<char>)
    requires
        word_scan(p).1.len() == 0,
        forall|k: int| 0 <= k < w.len() ==> !is_space(#[trigger] w[k]),
    ensures
        word_scan(p + w) == (word_scan(p).0, w),
    decreases w.len(),
{
    if w.len() == 0 {
        assert(p + w == p);
    } else {
        let w0 = w.drop_last();
        assert forall|k: int| 0 <= k < w0.len() implies !is_space(#[trigger] w0[k]) by {
            assert(w0[k] == w[k]);
        }
        lemma_scan_word_after_break(p, w0);
        assert(p + w == (p + w0).push(w.last()));
        lemma_scan_push(p + w0, w.last());
        assert(w0.push(w.last()) == w);
    }
}

/// Splitting a list of words joined with single spaces gives the list back.
pub proof fn lemma_words_of_joined(ws: Seq<Seq<char>>)
    requires
        forall|j: int| 0 <= j < ws.len() ==> is_word(#[trigger] ws[j]),
    ensures
        words(join_spaced(ws)) == ws,
    decreases ws.len(),
{
    if ws.len() == 0 {
    } else if ws.len() == 1 {
        let w = ws[0];
        assert(is_word(ws[0]));
        lemma_scan_word_after_break(Seq::empty(), w);
        assert(Seq::<char>::empty() + w == w);
        assert(ws == seq![w]);
    } else {
        let rest = ws.drop_last();
        let w = ws.last();
        assert forall|j: int| 0 <= j < rest.len() implies is_word(#[trigger] rest[j]) by {
            assert(rest[j] == ws[j]);
        }
        assert(is_word(ws[ws.len() - 1]));
        lemma_words_of_joined(rest);
        let s = join_spaced(rest);
        lemma_scan_push(s, ' ');
        let p = s.push(' ');
        assert(word_scan(p) == (words(s), Seq::<char>::empty()));
        lemma_scan_word_after_break(p, w);
        assert(s + seq![' '] + w == p + w);
        assert(ws == rest.push(w));
    }
}

} // verus!

verus! {

/// `s` without its leading white space.
pub open spec fn trim_start(s: Seq<char>) -> Seq<char>
    decreases s.len(),
{
    if s.len() > 0 && is_space(s[0]) {
        trim_start(s.drop_first())
    } else {
        s
    }
}

/// `s` without its trailing white space.
pub open spec fn trim_end(s: Seq<char>) -> Seq<char>
    decreases s.len(),
{
    if s.len() > 0 && is_space(s.last()) {
        trim_end(s.drop_last())
    } else {
        s
    }
}

/// `s` without leading and trailing white space, as `str::trim` gives it.
pub open spec fn trim(s: Seq<char>) -> Seq<char> {
    trim_end(trim_start(s))
}

proof fn lemma_trim_start_shape(s: Seq<char>)
    ensures
        trim_start(s).len() == 0 || !is_space(trim_start(s)[0]),
    decreases s.len(),
{
    if s.len() > 0 && is_space(s[0]) {
        lemma_trim_start_shape(s.drop_first());
    }
}

proof fn lemma_trim_end_shape(s: Seq<char>)
    ensures
        trim_end(s).len() <= s.len(),
        trim_end(s) == s.take(trim_end(s).len() as int),
        trim_end(s).len() == 0 || !is_space(trim_end(s).last()),
    decreases s.len(),
{
    if s.len() > 0 && is_space(s.last()) {
        lemma_trim_end_shape(s.drop_last());
        let r = trim_end(s.drop_last());
        assert(s.drop_last().take(r.len() as int) =~= s.take(r.len() as int));
    } else {
        assert(s.take(s.len() as int) =~= s);
    }
}

/// Trimming a trimmed text changes nothing.
pub proof fn lemma_trim_idempotent(s: Seq<char>)
    ensures
        trim(trim(s)) == trim(s),
{
    let t = trim_start(s);
    let u = trim_end(t);
    lemma_trim_start_shape(s);
    lemma_trim_end_shape(t);
    if u.len() > 0 {
        assert(u[0] == t[0]);
    }
    assert(trim_start(u) == u);
    assert(trim_end(u) == u);
}

/// The characters of `s` from `lo` up to `hi`.
pub fn slice_chars(s: &Vec<char>, lo: usize, hi: usize) -> (r: Vec<char>)
    requires
        lo <= hi <= s@.len(),
    ensures
        r@ == s@.subrange(lo as int, hi as int),
{
    let mut r: Vec<char> = Vec::new();
    let mut i = lo;
    while i < hi
        invariant
            lo <= i <= hi <= s@.len(),
            r@ == s@.subrange(lo as int, i as int),
        decreases hi - i,
    {
        r.push(s[i]);
        assert(s@.subrange(lo as int, i + 1) == s@.subrange(lo as int, i as int).push(s@[i as int]));
        i = i + 1;
    }
    r
}

/// `s` without leading and trailing white space.
pub fn trim_chars(s: &Vec<char>) -> (r: Vec<char>)
    ensures
        r@ == trim(s@),
{
    let n = s.len();
    let mut a: usize = 0;
    assert(s@.subrange(0, n as int) == s@);
    while a < n && is_space_char(s[a])
        invariant
            n == s@.len(),
            a <= n,
            trim_start(s@) == trim_start(s@.subrange(a as int, n as int)),
        decreases n - a,
    {
        assert(s@.subrange(a as int, n as int).drop_first() == s@.subrange(a + 1, n as int));
        a = a + 1;
    }
    assert(trim_start(s@.subrange(a as int, n as int)) == s@.subrange(a as int, n as int));
    let mut b: usize = n;
    while b > a && is_space_char(s[b - 1])
        invariant
            n == s@.len(),
            a <= b <= n,
            trim_end(trim_start(s@)) == trim_end(s@.subrange(a as int, b as int)),
            a < n ==> !is_space(s@[a as int]),
            a == n ==> trim_start(s@) == s@.subrange(a as int, n as int),
            trim_start(s@) == s@.subrange(a as int, n as int),
        decreases b - a,
    {
        assert(s@.subrange(a as int, b as int).drop_last() == s@.subrange(a as int, b - 1));
        b = b - 1;
    }
    slice_chars(s, a, b)
}

} // verus!

verus! {

/// A line without the carriage return that ended it, if any.
pub open spec fn strip_cr(l: Seq<char>) -> Seq<char> {
    if l.len() > 0 && l.last() == '\r' {
        l.drop_last()
    } else {
        l
    }
}

/// One step of cutting a text into lines: the lines finished so far and the
/// line being read.
pub open spec fn line_step(st: (Seq<Seq<char>>, Seq<char>), c: char) -> (Seq<Seq<char>>, Seq<char>) {
    if c == '\n' {
        (st.0.push(strip_cr(st.1)), Seq::empty())
    } else {
        (st.0, st.1.push(c))
    }
}

/// The state reached after reading all of `s`.
pub open spec fn line_scan(s: Seq<char>) -> (Seq<Seq<char>>, Seq<char>)
    decreases s.len(),
{
    if s.len() == 0 {
        (Seq::empty(), Seq::empty())
    } else {
        line_step(line_scan(s.drop_last()), s.last())
    }
}

/// The lines of `s`, as `str::lines` yields them: cut at each `\n`, a `\r`
/// just before it dropped, and no empty line after a final `\n`.
pub open spec fn lines(s: Seq<char>) -> Seq<Seq<char>> {
    let st = line_scan(s);
    if st.1.len() > 0 {
        st.0.push(st.1)
    } else {
        st.0
    }
}

/// The lines of `s`.
pub fn split_lines(s: &Vec<char>) -> (r: Vec<Vec<char>>)
    ensures
        seqs_of(r@) == lines(s@),
{
    let mut done: Vec<Vec<char>> = Vec::new();
    let mut cur: Vec<char> = Vec::new();
    let n = s.len();
    let mut i: usize = 0;
    while i < n
        invariant
            n == s@.len(),
            i <= n,
            (seqs_of(done@), cur@) == line_scan(s@.take(i as int)),
        decreases n - i,
    {
        let c = s[i];
        assert(s@.take(i + 1).drop_last() == s@.take(i as int));
        let ghost old_done = seqs_of(done@);
        let ghost old_cur = cur@;
        if c == '\n' {
            let l = cur.len();
            if l > 0 && cur[l - 1] == '\r' {
                cur.pop();
            }
            done.push(cur);
            cur = Vec::new();
            assert(seqs_of(done@) =~= old_done.push(strip_cr(old_cur)));
        } else {
            cur.push(c);
        }
        i = i + 1;
    }
    assert(s@.take(n as int) == s@);
    let ghost old_done = seqs_of(done@);
    let ghost old_cur = cur@;
    if cur.len() > 0 {
        done.push(cur);
        assert(seqs_of(done@) =~= old_done.push(old_cur));
    }
    done
}

/// Whether `s` begins with `p`.
pub open spec fn starts_with(s: Seq<char>, p: Seq<char>) -> bool {
    p.len() <= s.len() && s.take(p.len() as int) == p
}

/// Whether `s` begins with a digit from `1` to `3` followed by a full stop; the
/// digit, if so.
pub fn section_marker(s: &Vec<char>) -> (r: u8)
    ensures
        r == 1 <==> starts_with(s@, seq!['1', '.']),
        r == 2 <==> starts_with(s@, seq!['2', '.']),
        r == 3 <==> starts_with(s@, seq!['3', '.']),
        r == 0 || r == 1 || r == 2 || r == 3,
{
    if s.len() >= 2 && s[1] == '.' {
        let c = s[0];
        assert(s@.take(2) =~= seq![c, '.']);
        if c == '1' {
            1
        } else if c == '2' {
            2
        } else if c == '3' {
            3
        } else {
            0
        }
    } else {
        if s.len() >= 2 {
            assert(s@.take(2)[1] == s@[1]);
        }
        0
    }
}

} // verus!

verus! {

proof fn lemma_line_scan_push(s: Seq<char>, c: char)
    ensures
        line_scan(s.push(c)) == line_step(line_scan(s), c),
{
    assert(s.push(c).drop_last() == s);
}

/// Reading a text with no line break after a finished line leaves it as the
/// line being read.
pub proof fn lemma_line_scan_segment(a: Seq<char>, t: Seq<char>)
    requires
        line_scan(a).1.len() == 0,
        !t.contains('\n'),
    ensures
        line_scan(a + t) == (line_scan(a).0, t),
    decreases t.len(),
{
    if t.len() == 0 {
        assert(a + t == a);
    } else {
        let t0 = t.drop_last();
        assert(!t0.contains('\n')) by {
            if t0.contains('\n') {
                let k = choose|k: int| 0 <= k < t0.len() && t0[k] == '\n';
                assert(t[k] == '\n');
            }
        }
        assert(t[t.len() - 1] != '\n');
        lemma_line_scan_segment(a, t0);
        assert(a + t == (a + t0).push(t.last()));
        lemma_line_scan_push(a + t0, t.last());
        assert(t0.push(t.last()) == t);
    }
}

/// Reading a line and its line break adds the line to the finished ones.
pub proof fn lemma_line_scan_line(a: Seq<char>, t: Seq<char>)
    requires
        line_scan(a).1.len() == 0,
        !t.contains('\n'),
    ensures
        line_scan(a + t + seq!['\n']) == (line_scan(a).0.push(strip_cr(t)), Seq::<char>::empty()),
{
    lemma_line_scan_segment(a, t);
    assert(a + t + seq!['\n'] == (a + t).push('\n'));
    lemma_line_scan_push(a + t, '\n');
}

} // verus!

verus! {

/// Whether `c` is an ASCII decimal digit.
pub open spec fn is_digit(c: char) -> bool {
    '0' <= c <= '9'
}

/// The number written by the decimal digits `ds`.
pub open spec fn digits_value(ds: Seq<char>) -> nat
    decreases ds.len(),
{
    if ds.len() == 0 {
        0
    } else {
        digits_value(ds.drop_last()) * 10 + ((ds.last() as int) - ('0' as int)) as nat
    }
}

/// The digits of a number text, without the `+` that may precede them.
pub open spec fn unsigned_body(s: Seq<char>) -> Seq<char> {
    if s.len() > 0 && s[0] == '+' {
        s.drop_first()
    } else {
        s
    }
}

/// The value of an unsigned number text as `str::parse` reads it: an optional
/// `+`, then one or more ASCII digits and nothing else; none if the text has
/// another shape or its value exceeds `max`.
pub open spec fn parsed_unsigned(s: Seq<char>, max: nat) -> Option<nat> {
    let body = unsigned_body(s);
    if body.len() > 0 && (forall|k: int| 0 <= k < body.len() ==> is_digit(#[trigger] body[k]))
        && digits_value(body) <= max {
        Some(digits_value(body))
    } else {
        None
    }
}

proof fn lemma_digits_value_grows(ds: Seq<char>, i: int)
    requires
        0 <= i <= ds.len(),
        forall|k: int| 0 <= k < ds.len() ==> is_digit(#[trigger] ds[k]),
    ensures
        digits_value(ds.take(i)) <= digits_value(ds),
    decreases ds.len() - i,
{
    if i < ds.len() {
        lemma_digits_value_grows(ds, i + 1);
        assert(ds.take(i + 1).drop_last() == ds.take(i));
    } else {
        assert(ds.take(i) == ds);
    }
}

/// Reads an unsigned decimal number no larger than `max`.
pub fn parse_unsigned(s: &str, max: u64) -> (r: Option<u64>)
    ensures
        match parsed_unsigned(s@, max as nat) {
            Some(v) => r == Some(v as u64),
            None => r is None,
        },
{
    let chars = chars_of(s);
    let n = chars.len();
    let start: usize = if n > 0 && chars[0] == '+' {
        1
    } else {
        0
    };
    let ghost body = unsigned_body(s@);
    assert(body == chars@.subrange(start as int, n as int));
    if start == n {
        return None;
    }
    let mut acc: u64 = 0;
    let mut i = start;
    while i < n
        invariant
            start <= i <= n,
            n == chars@.len(),
            chars@ == s@,
            body == unsigned_body(s@),
            body == chars@.subrange(start as int, n as int),
            forall|k: int| 0 <= k < i - start ==> is_digit(#[trigger] body[k]),
            acc as nat == digits_value(body.take(i - start)),
            acc <= max,
        decreases n - i,
    {
        let c = chars[i];
        assert(body[i - start] == c);
        if !('0' <= c && c <= '9') {
            assert(!is_digit(body[i - start]));
            return None;
        }
        let d: u64 = (c as u64) - ('0' as u64);
        assert(body.take(i - start + 1).drop_last() == body.take(i - start));
        if d > max || acc > (max - d) / 10 {
            proof {
                if d <= max {
                    assert(acc * 10 + d > max) by (nonlinear_arith)
                        requires
                            acc > (max - d) / 10,
                            d <= 9,
                            d <= max,
                    ;
                }
                if forall|k: int| 0 <= k < body.len() ==> is_digit(#[trigger] body[k]) {
                    lemma_digits_value_grows(body, i - start + 1);
                }
            }
            return None;
        }
        proof {
            assert(acc * 10 + d <= max) by (nonlinear_arith)
                requires
                    acc <= (max - d) / 10,
                    d <= max,
            ;
        }
        acc = acc * 10 + d;
        i = i + 1;
    }
    assert(body.take(n - start) == body);
    Some(acc)
}

} // verus!

verus! {

/// The lowercase form of a text, as `str::to_lowercase` maps it (Unicode
/// lowercase mapping, with the final-sigma rule).
pub uninterp spec fn lowercase(s: Seq<char>) -> Seq<char>;

/// The lowercase form of `s`.
///
/// Calls `str::to_lowercase`, whose result depends on the text alone; the
/// contract names it `lowercase` and states no more of the Unicode mapping.
#[verifier::external_body]
pub(crate) fn to_lowercase(s: &str) -> (r: String)
    ensures
        r@ == lowercase(s@),
{
    s.to_lowercase()
}

/// The pieces of `items` with `sep` between each two.
pub open spec fn join_with(items: Seq<Seq<char>>, sep: Seq<char>) -> Seq<char>
    decreases items.len(),
{
    if items.len() == 0 {
        Seq::empty()
    } else if items.len() == 1 {
        items[0]
    } else {
        join_with(items.drop_last(), sep) + sep + items.last()
    }
}

/// Joining two non-empty lists is joining each and putting the separator
/// between them: the separator stands between every two adjacent items.
pub proof fn lemma_join_with_append(a: Seq<Seq<char>>, b: Seq<Seq<char>>, sep: Seq<char>)
    requires
        a.len() > 0,
        b.len() > 0,
    ensures
        join_with(a + b, sep) == join_with(a, sep) + sep + join_with(b, sep),
    decreases b.len(),
{
    if b.len() == 1 {
        assert((a + b).drop_last() =~= a);
        assert((a + b).last() == b[0]);
    } else {
        let b0 = b.drop_last();
        lemma_join_with_append(a, b0, sep);
        assert((a + b).drop_last() =~= a + b0);
        assert((a + b).last() == b.last());
        assert(join_with(a + b, sep) =~= join_with(a, sep) + sep + (join_with(b0, sep) + sep
            + b.last()));
    }
}

/// Adding an item to a non-empty list adds the separator and the item to
/// the joined text.
pub proof fn lemma_join_with_push(items: Seq<Seq<char>>, x: Seq<char>, sep: Seq<char>)
    requires
        items.len() > 0,
    ensures
        join_with(items.push(x), sep) == join_with(items, sep) + sep + x,
{
    lemma_join_with_append(items, seq![x], sep);
    assert(items + seq![x] == items.push(x));
}

/// The joined text is as long as the items together plus one separator
/// between every two of them.
pub proof fn lemma_join_with_len(items: Seq<Seq<char>>, sep: Seq<char>)
    requires
        items.len() > 0,
    ensures
        join_with(items, sep).len() == total_len(items) + (items.len() - 1) * sep.len(),
    decreases items.len(),
{
    let n = items.len() as int;
    let k = sep.len() as int;
    if n > 1 {
        lemma_join_with_len(items.drop_last(), sep);
        assert((n - 1) * k == (n - 2) * k + k) by (nonlinear_arith);
        assert(join_with(items, sep) == join_with(items.drop_last(), sep) + sep + items.last());
    } else {
        assert(total_len(items.drop_last()) == 0);
        assert(items.last() == items[0]);
        assert((n - 1) * k == 0) by (nonlinear_arith)
            requires
                n == 1,
        ;
    }
}

/// The number of characters of all of `items`.
pub open spec fn total_len(items: Seq<Seq<char>>) -> int
    decreases items.len(),
{
    if items.len() == 0 {
        0
    } else {
        total_len(items.drop_last()) + items.last().len()
    }
}

/// The texts of a list of strings.
pub open spec fn texts_of(v: Seq<String>) -> Seq<Seq<char>> {
    v.map_values(|s: String| s@)
}

/// The pieces of `items` with `sep` between each two, as `[..].join(sep)`
/// gives them.
pub fn join_strings(items: &Vec<String>, sep: &str) -> (r: String)
    ensures
        r@ == join_with(texts_of(items@), sep@),
{
    let mut out = String::new();
    let n = items.len();
    let mut i: usize = 0;
    while i < n
        invariant
            n == items@.len(),
            i <= n,
            out@ == join_with(texts_of(items@).take(i as int), sep@),
        decreases n - i,
    {
        let ghost before = texts_of(items@).take(i as int);
        assert(texts_of(items@).take(i + 1).drop_last() == before);
        if i > 0 {
            out.append(sep);
        }
        out.append(items[i].as_str());
        i = i + 1;
    }
    assert(texts_of(items@).take(n as int) == texts_of(items@));
    out
}

} // verus!

verus! {

/// The decimal digits of `n`, most significant first, with no leading zero.
pub open spec fn decimal_digits(n: nat) -> Seq<char>
    decreases n,
{
    if n < 10 {
        seq![(('0' as int) + n) as char]
    } else {
        decimal_digits(n / 10).push((('0' as int) + (n % 10)) as char)
    }
}

/// The decimal text of `n`, as `Display` writes an integer: a minus sign for
/// negative numbers, then the digits of its magnitude.
pub open spec fn decimal_text(n: int) -> Seq<char> {
    if n < 0 {
        seq!['-'] + decimal_digits((-n) as nat)
    } else {
        decimal_digits(n as nat)
    }
}

fn digits_of(n: u64) -> (r: Vec<char>)
    ensures
        r@ == decimal_digits(n as nat),
    decreases n,
{
    let d = n % 10;
    let c = char_of_digit(d);
    if n < 10 {
        let mut r = Vec::new();
        r.push(c);
        r
    } else {
        let mut r = digits_of(n / 10);
        r.push(c);
        r
    }
}

fn char_of_digit(d: u64) -> (c: char)
    requires
        d < 10,
    ensures
        c == (('0' as int) + d) as char,
{
    if d == 0 {
        '0'
    } else if d == 1 {
        '1'
    } else if d == 2 {
        '2'
    } else if d == 3 {
        '3'
    } else if d == 4 {
        '4'
    } else if d == 5 {
        '5'
    } else if d == 6 {
        '6'
    } else if d == 7 {
        '7'
    } else if d == 8 {
        '8'
    } else {
        '9'
    }
}

/// The decimal text of `n`.
pub fn i32_text(n: i32) -> (s: String)
    ensures
        s@ == decimal_text(n as int),
{
    if n < 0 {
        let m: u64 = (0i64 - (n as i64)) as u64;
        let ds = digits_of(m);
        let mut v: Vec<char> = Vec::new();
        v.push('-');
        push_all(&mut v, &ds);
        string_from_chars(&v)
    } else {
        let ds = digits_of(n as u64);
        string_from_chars(&ds)
    }
}

} // verus!

verus! {

/// `t` placed before every character of `s` and after the last one, which is
/// what replacing the empty pattern with `t` gives.
pub open spec fn interleave(s: Seq<char>, t: Seq<char>) -> Seq<char>
    decreases s.len(),
{
    if s.len() == 0 {
        t
    } else {
        t + seq![s[0]] + interleave(s.drop_first(), t)
    }
}

/// `s` with every occurrence of `p` replaced by `t`, as `str::replace` does
/// it: occurrences are taken from the left and do not overlap.
pub open spec fn replace_all(s: Seq<char>, p: Seq<char>, t: Seq<char>) -> Seq<char>
    decreases s.len(),
{
    if p.len() == 0 {
        interleave(s, t)
    } else if s.len() == 0 {
        Seq::empty()
    } else if starts_with(s, p) {
        t + replace_all(s.skip(p.len() as int), p, t)
    } else {
        seq![s[0]] + replace_all(s.drop_first(), p, t)
    }
}

/// Whether `p` occurs in `s` at place `i`.
fn occurs_at(s: &Vec<char>, p: &Vec<char>, i: usize) -> (r: bool)
    requires
        i <= s@.len(),
    ensures
        r == starts_with(s@.skip(i as int), p@),
{
    let n = s.len();
    let m = p.len();
    if n - i < m {
        return false;
    }
    let mut k: usize = 0;
    while k < m
        invariant
            n == s@.len(),
            m == p@.len(),
            i + m <= n,
            k <= m,
            forall|j: int| 0 <= j < k ==> s@[i + j] == p@[j],
        decreases m - k,
    {
        if s[i + k] != p[k] {
            assert(s@.skip(i as int).take(m as int)[k as int] != p@[k as int]);
            return false;
        }
        k = k + 1;
    }
    assert(s@.skip(i as int).take(m as int) =~= p@);
    true
}

/// `s` with every occurrence of `p` replaced by `t`.
pub fn replace_chars(s: &Vec<char>, p: &Vec<char>, t: &Vec<char>) -> (r: Vec<char>)
    ensures
        r@ == replace_all(s@, p@, t@),
{
    let n = s.len();
    let mut out: Vec<char> = Vec::new();
    let mut i: usize = 0;
    assert(s@.skip(0) == s@);
    assert(out@ + interleave(s@, t@) == interleave(s@, t@));
    if p.len() == 0 {
        while i < n
            invariant
                n == s@.len(),
                i <= n,
                p@.len() == 0,
                interleave(s@, t@) == out@ + interleave(s@.skip(i as int), t@),
            decreases n - i,
        {
            assert(s@.skip(i as int).drop_first() == s@.skip(i + 1));
            assert(s@.skip(i as int)[0] == s@[i as int]);
            push_all(&mut out, t);
            out.push(s[i]);
            i = i + 1;
            assert(out@ + interleave(s@.skip(i as int), t@) =~= (out@.drop_last() + seq![
                s@[i - 1],
            ]) + interleave(s@.skip(i as int), t@));
        }
        assert(s@.skip(n as int).len() == 0);
        push_all(&mut out, t);
        assert(s@.skip(0) == s@);
        return out;
    }
    assert(s@.skip(0) == s@);
    while i < n
        invariant
            n == s@.len(),
            i <= n,
            p@.len() > 0,
            replace_all(s@, p@, t@) == out@ + replace_all(s@.skip(i as int), p@, t@),
        decreases n - i,
    {
        let rest = Ghost(s@.skip(i as int));
        if occurs_at(s, p, i) {
            assert(rest@.skip(p@.len() as int) == s@.skip(i + p@.len()));
            push_all(&mut out, t);
            i = i + p.len();
        } else {
            assert(rest@.drop_first() == s@.skip(i + 1));
            assert(rest@[0] == s@[i as int]);
            let ghost before = out@;
            out.push(s[i]);
            assert(before + (seq![s@[i as int]] + replace_all(s@.skip(i + 1), p@, t@)) =~= out@
                + replace_all(s@.skip(i + 1), p@, t@));
            i = i + 1;
        }
    }
    assert(s@.skip(n as int).len() == 0);
    assert(out@ + Seq::<char>::empty() == out@);
    out
}

} // verus!

verus! {

/// Whether `p` occurs somewhere in `s`.
pub open spec fn occurs_in(s: Seq<char>, p: Seq<char>) -> bool {
    exists|i: int| 0 <= i <= s.len() && #[trigger] starts_with(s.skip(i), p)
}

/// Replacing a non-empty pattern that does not occur leaves a text as it is.
pub proof fn lemma_replace_absent(s: Seq<char>, p: Seq<char>, t: Seq<char>)
    requires
        p.len() > 0,
        !occurs_in(s, p),
    ensures
        replace_all(s, p, t) == s,
    decreases s.len(),
{
    if s.len() > 0 {
        assert(s.skip(0) == s);
        assert(!starts_with(s.skip(0), p));
        let rest = s.drop_first();
        assert(!occurs_in(rest, p)) by {
            if occurs_in(rest, p) {
                let i = choose|i: int| 0 <= i <= rest.len() && #[trigger] starts_with(rest.skip(i), p);
                assert(rest.skip(i) == s.skip(i + 1));
                assert(starts_with(s.skip(i + 1), p));
            }
        }
        lemma_replace_absent(rest, p, t);
        assert(seq![s[0]] + rest == s);
    }
}

} // verus!
