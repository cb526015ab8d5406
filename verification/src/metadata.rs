use vstd::prelude::*;

use crate::text;

verus! {

/// Reading state of a metadata reply: the current section (0 before any
/// marker) and the text gathered for the paragraph, bullet and keyword
/// sections.
pub open spec fn section_step(
    st: (int, Seq<char>, Seq<char>, Seq<char>),
    line: Seq<char>,
) -> (int, Seq<char>, Seq<char>, Seq<char>) {
    if text::starts_with(line, seq!['1', '.']) {
        (1, st.1, st.2, st.3)
    } else if text::starts_with(line, seq!['2', '.']) {
        (2, st.1, st.2, st.3)
    } else if text::starts_with(line, seq!['3', '.']) {
        (3, st.1, st.2, st.3)
    } else if st.0 == 1 {
        (st.0, st.1 + line, st.2, st.3)
    } else if st.0 == 2 {
        (st.0, st.1, st.2 + line, st.3)
    } else if st.0 == 3 {
        (st.0, st.1, st.2, st.3 + line)
    } else {
        st
    }
}

/// The state after reading all of `ls`.
pub open spec fn section_scan(ls: Seq<Seq<char>>) -> (int, Seq<char>, Seq<char>, Seq<char>)
    decreases ls.len(),
{
    if ls.len() == 0 {
        (0, Seq::empty(), Seq::empty(), Seq::empty())
    } else {
        section_step(section_scan(ls.drop_last()), ls.last())
    }
}

/// The paragraph, bullet points and keywords of a model reply: a line that
/// begins with `1.`, `2.` or `3.` opens the paragraph, bullet or keyword
/// section and is itself dropped; every other line is appended, without its
/// line break, to the section open at that point (lines before the first
/// marker are dropped); each section is then trimmed.
pub open spec fn metadata_sections(response: Seq<char>) -> (Seq<char>, Seq<char>, Seq<char>) {
    let st = section_scan(text::lines(response));
    (text::trim(st.1), text::trim(st.2), text::trim(st.3))
}

/// Splits a model reply into its paragraph, bullet-point and keyword
/// sections.
pub fn parse_article_metadata(response: &str) -> (r: (String, String, String))
    ensures
        (r.0@, r.1@, r.2@) == metadata_sections(response@),
{
    let chars = text::chars_of(response);
    let ls = text::split_lines(&chars);
    let ghost all = text::seqs_of(ls@);
    let mut paragraph: Vec<char> = Vec::new();
    let mut bullets: Vec<char> = Vec::new();
    let mut keywords: Vec<char> = Vec::new();
    let mut current_section: u8 = 0;
    let n = ls.len();
    let mut i: usize = 0;
    while i < n
        invariant
            n == ls@.len(),
            all == text::seqs_of(ls@),
            all == text::lines(response@),
            i <= n,
            current_section <= 3,
            section_scan(all.take(i as int)) == (
                current_section as int,
                paragraph@,
                bullets@,
                keywords@,
            ),
        decreases n - i,
    {
        let line = &ls[i];
        assert(all.take(i + 1).drop_last() == all.take(i as int));
        assert(all[i as int] == line@);
        let marker = text::section_marker(line);
        if marker != 0 {
            current_section = marker;
        } else if current_section == 1 {
            text::push_all(&mut paragraph, line);
        } else if current_section == 2 {
            text::push_all(&mut bullets, line);
        } else if current_section == 3 {
            text::push_all(&mut keywords, line);
        }
        i = i + 1;
    }
    assert(all.take(n as int) == all);
    let p = text::trim_chars(&paragraph);
    let b = text::trim_chars(&bullets);
    let k = text::trim_chars(&keywords);
    (text::string_from_chars(&p), text::string_from_chars(&b), text::string_from_chars(&k))
}

} // verus!

verus! {

/// A line that a reply can carry as a section's text: no line break, no
/// trailing carriage return, and no section marker at its start.
pub open spec fn plain_line(l: Seq<char>) -> bool {
    &&& !l.contains('\n')
    &&& !(l.len() > 0 && l.last() == '\r')
    &&& !text::starts_with(l, seq!['1', '.'])
    &&& !text::starts_with(l, seq!['2', '.'])
    &&& !text::starts_with(l, seq!['3', '.'])
}

/// A reply in the shape the prompt asks for: each marker on a line of its
/// own, followed by one line of section text.
pub open spec fn render_sections(p: Seq<char>, b: Seq<char>, k: Seq<char>) -> Seq<char> {
    seq!['1', '.', '\n'] + p + seq!['\n', '2', '.', '\n'] + b + seq!['\n', '3', '.', '\n'] + k
}

/// Reading back a reply written in the expected shape gives each section's
/// text, trimmed.
pub proof fn lemma_sections_round_trip(p: Seq<char>, b: Seq<char>, k: Seq<char>)
    requires
        plain_line(p),
        plain_line(b),
        plain_line(k),
    ensures
        metadata_sections(render_sections(p, b, k)) == (text::trim(p), text::trim(b), text::trim(k)),
{
    let m1 = seq!['1', '.'];
    let m2 = seq!['2', '.'];
    let m3 = seq!['3', '.'];
    let e = Seq::<char>::empty();
    assert(!m1.contains('\n') && !m2.contains('\n') && !m3.contains('\n')) by {
        assert(m1[0] != '\n' && m1[1] != '\n');
        assert(m2[0] != '\n' && m2[1] != '\n');
        assert(m3[0] != '\n' && m3[1] != '\n');
    }
    assert(text::line_scan(e) == (Seq::<Seq<char>>::empty(), e));
    let a1 = e + m1 + seq!['\n'];
    text::lemma_line_scan_line(e, m1);
    let a2 = a1 + p + seq!['\n'];
    text::lemma_line_scan_line(a1, p);
    let a3 = a2 + m2 + seq!['\n'];
    text::lemma_line_scan_line(a2, m2);
    let a4 = a3 + b + seq!['\n'];
    text::lemma_line_scan_line(a3, b);
    let a5 = a4 + m3 + seq!['\n'];
    text::lemma_line_scan_line(a4, m3);
    text::lemma_line_scan_segment(a5, k);
    assert(a5 + k =~= render_sections(p, b, k));
    assert(text::strip_cr(m1) == m1 && text::strip_cr(m2) == m2 && text::strip_cr(m3) == m3);
    assert(text::strip_cr(p) == p && text::strip_cr(b) == b);
    let ls = seq![m1, p, m2, b, m3];
    assert(text::line_scan(a5).0 =~= ls);
    let all = if k.len() > 0 { ls.push(k) } else { ls };
    assert(text::lines(render_sections(p, b, k)) == all);
    assert(m1.take(2) =~= m1 && m2.take(2) =~= m2 && m3.take(2) =~= m3);
    assert(m1 != m2 && m1 != m3 && m2 != m3) by {
        assert(m1[0] != m2[0] && m1[0] != m3[0] && m2[0] != m3[0]);
    }
    reveal_with_fuel(section_scan, 7);
    assert(ls.drop_last() =~= seq![m1, p, m2, b]);
    assert(seq![m1, p, m2, b].drop_last() =~= seq![m1, p, m2]);
    assert(seq![m1, p, m2].drop_last() =~= seq![m1, p]);
    assert(seq![m1, p].drop_last() =~= seq![m1]);
    assert(seq![m1].drop_last() =~= Seq::<Seq<char>>::empty());
    assert(e + p =~= p && e + b =~= b && e + k =~= k);
    assert(section_scan(ls) == (3int, p, b, e));
    if k.len() > 0 {
        assert(ls.push(k).drop_last() == ls);
    }
}

/// Whether `l` opens no section: it does not begin with `1.`, `2.` or `3.`.
pub open spec fn no_marker(l: Seq<char>) -> bool {
    &&& !text::starts_with(l, seq!['1', '.'])
    &&& !text::starts_with(l, seq!['2', '.'])
    &&& !text::starts_with(l, seq!['3', '.'])
}

/// Reading a line that opens no section appends it, whole, to the text of
/// the section open at that point and leaves the other sections and the open
/// section as they were; before the first marker the line is dropped.
pub proof fn lemma_plain_line_appends(ls: Seq<Seq<char>>, l: Seq<char>)
    requires
        no_marker(l),
    ensures
        section_scan(ls.push(l)).0 == section_scan(ls).0,
        section_scan(ls.push(l)).1 == if section_scan(ls).0 == 1 {
            section_scan(ls).1 + l
        } else {
            section_scan(ls).1
        },
        section_scan(ls.push(l)).2 == if section_scan(ls).0 == 2 {
            section_scan(ls).2 + l
        } else {
            section_scan(ls).2
        },
        section_scan(ls.push(l)).3 == if section_scan(ls).0 == 3 {
            section_scan(ls).3 + l
        } else {
            section_scan(ls).3
        },
{
    assert(ls.push(l).drop_last() == ls);
    lemma_scan_state(ls);
}

proof fn lemma_scan_state(ls: Seq<Seq<char>>)
    ensures
        0 <= section_scan(ls).0 <= 3,
    decreases ls.len(),
{
    if ls.len() > 0 {
        lemma_scan_state(ls.drop_last());
    }
}

/// Reading a marker line opens its section and keeps every text gathered so
/// far.
pub proof fn lemma_marker_opens_section(ls: Seq<Seq<char>>, l: Seq<char>, k: int)
    requires
        1 <= k <= 3,
        l.len() >= 2,
        l[0] == (if k == 1 { '1' } else if k == 2 { '2' } else { '3' }),
        l[1] == '.',
    ensures
        section_scan(ls.push(l)) == (k, section_scan(ls).1, section_scan(ls).2, section_scan(ls).3),
{
    assert(ls.push(l).drop_last() == ls);
    assert(l.take(2) =~= seq![l[0], '.']);
}

proof fn lemma_scan_push(ls: Seq<Seq<char>>, l: Seq<char>)
    ensures
        section_scan(ls.push(l)) == section_step(section_scan(ls), l),
{
    assert(ls.push(l).drop_last() == ls);
}

/// A reply whose sections each span two lines reads back as each section's
/// two lines put together, trimmed: every line of a section is kept, in
/// order.
pub proof fn lemma_sections_gather_lines(
    p1: Seq<char>,
    p2: Seq<char>,
    b1: Seq<char>,
    b2: Seq<char>,
    k1: Seq<char>,
    k2: Seq<char>,
)
    requires
        plain_line(p1),
        plain_line(p2),
        plain_line(b1),
        plain_line(b2),
        plain_line(k1),
        plain_line(k2),
    ensures
        metadata_sections(
            seq!['1', '.', '\n'] + p1 + seq!['\n'] + p2 + seq!['\n', '2', '.', '\n'] + b1 + seq!['\n']
                + b2 + seq!['\n', '3', '.', '\n'] + k1 + seq!['\n'] + k2,
        ) == (text::trim(p1 + p2), text::trim(b1 + b2), text::trim(k1 + k2)),
{
    let m1 = seq!['1', '.'];
    let m2 = seq!['2', '.'];
    let m3 = seq!['3', '.'];
    let nl = seq!['\n'];
    let e = Seq::<char>::empty();
    assert(!m1.contains('\n') && !m2.contains('\n') && !m3.contains('\n')) by {
        assert(m1[0] != '\n' && m1[1] != '\n');
        assert(m2[0] != '\n' && m2[1] != '\n');
        assert(m3[0] != '\n' && m3[1] != '\n');
    }
    assert(text::line_scan(e) == (Seq::<Seq<char>>::empty(), e));
    let a1 = e + m1 + nl;
    text::lemma_line_scan_line(e, m1);
    let a2 = a1 + p1 + nl;
    text::lemma_line_scan_line(a1, p1);
    let a3 = a2 + p2 + nl;
    text::lemma_line_scan_line(a2, p2);
    let a4 = a3 + m2 + nl;
    text::lemma_line_scan_line(a3, m2);
    let a5 = a4 + b1 + nl;
    text::lemma_line_scan_line(a4, b1);
    let a6 = a5 + b2 + nl;
    text::lemma_line_scan_line(a5, b2);
    let a7 = a6 + m3 + nl;
    text::lemma_line_scan_line(a6, m3);
    let a8 = a7 + k1 + nl;
    text::lemma_line_scan_line(a7, k1);
    text::lemma_line_scan_segment(a8, k2);
    let r = seq!['1', '.', '\n'] + p1 + seq!['\n'] + p2 + seq!['\n', '2', '.', '\n'] + b1 + seq!['\n']
        + b2 + seq!['\n', '3', '.', '\n'] + k1 + seq!['\n'] + k2;
    assert(a8 + k2 =~= r);
    assert(text::strip_cr(m1) == m1 && text::strip_cr(m2) == m2 && text::strip_cr(m3) == m3);
    assert(text::strip_cr(p1) == p1 && text::strip_cr(p2) == p2);
    assert(text::strip_cr(b1) == b1 && text::strip_cr(b2) == b2 && text::strip_cr(k1) == k1);
    let l0 = Seq::<Seq<char>>::empty();
    let l1 = l0.push(m1);
    let l2 = l1.push(p1);
    let l3 = l2.push(p2);
    let l4 = l3.push(m2);
    let l5 = l4.push(b1);
    let l6 = l5.push(b2);
    let l7 = l6.push(m3);
    let l8 = l7.push(k1);
    assert(text::line_scan(a8).0 =~= l8);
    assert(m1.len() == 2 && m2.len() == 2 && m3.len() == 2);
    lemma_marker_opens_section(l0, m1, 1);
    lemma_plain_line_appends(l1, p1);
    lemma_plain_line_appends(l2, p2);
    lemma_marker_opens_section(l3, m2, 2);
    lemma_plain_line_appends(l4, b1);
    lemma_plain_line_appends(l5, b2);
    lemma_marker_opens_section(l6, m3, 3);
    lemma_plain_line_appends(l7, k1);
    assert(e + p1 =~= p1 && e + b1 =~= b1 && e + k1 =~= k1);
    assert(section_scan(l8) == (3int, p1 + p2, b1 + b2, k1));
    if k2.len() > 0 {
        lemma_plain_line_appends(l8, k2);
        assert(text::lines(r) == l8.push(k2));
    } else {
        assert(text::lines(r) == l8);
        assert(k1 + k2 =~= k1);
    }
}

} // verus!
