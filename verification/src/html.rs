use vstd::prelude::*;

use scraper::{Html, Selector};

use crate::text;

verus! {

/// The HTML text, and the HTML text inside it, of each element that `css`
/// selects in the fragment that `scraper` parses from `html`, in document
/// order; none when `css` does not parse as a selector.
pub uninterp spec fn selected_tags(html: Seq<char>, css: Seq<char>) -> Seq<(Seq<char>, Seq<char>)>;

/// The texts that a list of elements stands for.
pub open spec fn tag_views(v: Seq<TagText>) -> Seq<(Seq<char>, Seq<char>)> {
    v.map_values(|t: TagText| (t.outer@, t.inner@))
}

/// The elements that `css` selects in the HTML fragment `html`, each with
/// its HTML text and the HTML text inside it, in document order.
///
/// Calls `scraper::Html::parse_fragment`, `scraper::Selector::parse`,
/// `scraper::Html::select`, and `ElementRef::html` and
/// `ElementRef::inner_html` on each element; an unparsable selector gives no
/// elements. All of it depends on `html` and `css` alone; the contract names
/// the result `selected_tags` and states no more of it.
#[verifier::external_body]
fn select_tags(html: &str, css: &str) -> (v: Vec<TagText>)
    ensures
        tag_views(v@) == selected_tags(html@, css@),
{
    let doc = Html::parse_fragment(html);
    match Selector::parse(css) {
        Ok(sel) => doc.select(&sel).map(|e| TagText { outer: e.html(), inner: e.inner_html() }).collect(),
        Err(_) => Vec::new(),
    }
}

/// The HTML text and the values of the attributes `first` and `second` (none
/// when absent) of each element that `css` selects in the fragment that
/// `scraper` parses from `html`, in document order; none when `css` does not
/// parse as a selector.
pub uninterp spec fn selected_attributes(
    html: Seq<char>,
    css: Seq<char>,
    first: Seq<char>,
    second: Seq<char>,
) -> Seq<(Seq<char>, Option<Seq<char>>, Option<Seq<char>>)>;

/// The text of an optional text.
pub open spec fn opt_view(o: Option<String>) -> Option<Seq<char>> {
    match o {
        Some(s) => Some(s@),
        None => None,
    }
}

/// The texts that a list of elements with two attributes stands for.
pub open spec fn attribute_views(v: Seq<(String, Option<String>, Option<String>)>) -> Seq<
    (Seq<char>, Option<Seq<char>>, Option<Seq<char>>),
> {
    v.map_values(|t: (String, Option<String>, Option<String>)| (t.0@, opt_view(t.1), opt_view(t.2)))
}

/// The elements that `css` selects in the HTML fragment `html`, each with
/// its HTML text and its attributes `first` and `second`, in document order.
///
/// Calls `scraper::Html::parse_fragment`, `scraper::Selector::parse`,
/// `scraper::Html::select`, and `ElementRef::html` and `ElementRef::attr` on
/// each element; an unparsable selector gives no elements. All of it depends
/// on the arguments alone; the contract names the result
/// `selected_attributes` and states no more of it.
#[verifier::external_body]
fn select_attributes(html: &str, css: &str, first: &str, second: &str) -> (v: Vec<
    (String, Option<String>, Option<String>),
>)
    ensures
        attribute_views(v@) == selected_attributes(html@, css@, first@, second@),
{
    let doc = Html::parse_fragment(html);
    match Selector::parse(css) {
        Ok(sel) => doc.select(&sel).map(|e| (e.html(), e.attr(first).map(String::from), e.attr(second).map(String::from))).collect(),
        Err(_) => Vec::new(),
    }
}

/// The markdown text of an HTML text, as `html2md` renders it.
pub uninterp spec fn markdown_of(html: Seq<char>) -> Seq<char>;

/// The markdown text of an HTML text.
///
/// Calls `html2md::parse_html`, whose output depends on its input alone; the
/// contract names it `markdown_of` and states no more of the rendering.
/// `html2md` walks the parsed tree recursively and edits its output at byte
/// positions it recorded; its source does not show that it returns on every
/// input (a deeply nested document may exhaust the stack), and this
/// contract, like its callers' contracts, holds for the calls that return.
#[verifier::external_body]
fn render_markdown(html: &str) -> (md: String)
    ensures
        md@ == markdown_of(html@),
{
    html2md::parse_html(html)
}

} // verus!

verus! {

/// `s` after each replacement of `pairs`, in order: every occurrence of the
/// first text of a pair replaced by its second.
pub open spec fn apply_replacements(s: Seq<char>, pairs: Seq<(Seq<char>, Seq<char>)>) -> Seq<char>
    decreases pairs.len(),
{
    if pairs.len() == 0 {
        s
    } else {
        text::replace_all(apply_replacements(s, pairs.drop_last()), pairs.last().0, pairs.last().1)
    }
}

/// An element as a cleaning pass sees it: its HTML text and the HTML text
/// inside it.
#[derive(Debug, Clone)]
pub struct TagText {
    pub outer: String,
    pub inner: String,
}

/// An image element as a cleaning pass sees it: its HTML text and its `alt`
/// and `src` attributes, empty when absent.
#[derive(Debug, Clone)]
pub struct ImageTag {
    pub outer: String,
    pub alt: String,
    pub src: String,
}

/// The markdown image that stands for an image element.
pub open spec fn image_markdown(alt: Seq<char>, src: Seq<char>) -> Seq<char> {
    "!["@ + alt + "]("@ + src + ")"@
}

/// A `pre` element whose line breaks are written as character references,
/// so that they survive the conversion to markdown.
pub open spec fn preserved_pre(inner: Seq<char>) -> Seq<char> {
    "<pre>"@ + text::replace_all(inner, "\n"@, "&#10;"@) + "</pre>"@
}

/// The texts that a list of image elements stands for: HTML text, `alt` and
/// `src`.
pub open spec fn image_views(v: Seq<ImageTag>) -> Seq<(Seq<char>, Seq<char>, Seq<char>)> {
    v.map_values(|i: ImageTag| (i.outer@, i.alt@, i.src@))
}

/// The replacements of one cleaning pass: script and style elements removed,
/// `div` elements replaced by their content, image elements (HTML text,
/// `alt`, `src`) replaced by markdown images, and line breaks inside `pre`
/// elements preserved; in that order, each kind in document order.
pub open spec fn cleaning_pairs(
    scripts: Seq<Seq<char>>,
    divs: Seq<(Seq<char>, Seq<char>)>,
    images: Seq<(Seq<char>, Seq<char>, Seq<char>)>,
    pres: Seq<(Seq<char>, Seq<char>)>,
) -> Seq<(Seq<char>, Seq<char>)> {
    scripts.map_values(|s: Seq<char>| (s, Seq::<char>::empty())) + divs
        + images.map_values(
        |i: (Seq<char>, Seq<char>, Seq<char>)| (i.0, image_markdown(i.1, i.2)),
    ) + pres.map_values(|p: (Seq<char>, Seq<char>)| (p.0, preserved_pre(p.1)))
}

fn apply_pair(cleaned: &mut Vec<char>, from: &str, to: &Vec<char>)
    ensures
        final(cleaned)@ == text::replace_all(old(cleaned)@, from@, to@),
{
    let f = text::chars_of(from);
    let r = text::replace_chars(cleaned, &f, to);
    *cleaned = r;
}

/// One cleaning pass over `html`, given the elements that the pass found.
pub fn rewrite_pass(
    html: &str,
    scripts: &Vec<String>,
    divs: &Vec<TagText>,
    images: &Vec<ImageTag>,
    pres: &Vec<TagText>,
) -> (r: String)
    ensures
        r@ == apply_replacements(
            html@,
            cleaning_pairs(text::texts_of(scripts@), tag_views(divs@), image_views(images@), tag_views(pres@)),
        ),
{
    let mut cleaned = text::chars_of(html);
    let ghost mut pairs: Seq<(Seq<char>, Seq<char>)> = Seq::empty();
    let mut i: usize = 0;
    while i < scripts.len()
        invariant
            i <= scripts@.len(),
            pairs == text::texts_of(scripts@).take(i as int).map_values(
                |s: Seq<char>| (s, Seq::<char>::empty()),
            ),
            cleaned@ == apply_replacements(html@, pairs),
        decreases scripts@.len() - i,
    {
        let empty: Vec<char> = Vec::new();
        apply_pair(&mut cleaned, scripts[i].as_str(), &empty);
        proof {
            let p2 = pairs.push((scripts@[i as int]@, Seq::<char>::empty()));
            assert(p2.drop_last() == pairs);
            assert(text::texts_of(scripts@).take(i + 1).map_values(
                |s: Seq<char>| (s, Seq::<char>::empty()),
            ) =~= p2);
            pairs = p2;
        }
        i = i + 1;
    }
    assert(text::texts_of(scripts@).take(scripts@.len() as int) == text::texts_of(scripts@));
    let ghost base1 = pairs;
    i = 0;
    while i < divs.len()
        invariant
            i <= divs@.len(),
            pairs == base1 + tag_views(divs@).take(i as int),
            cleaned@ == apply_replacements(html@, pairs),
        decreases divs@.len() - i,
    {
        let inner = text::chars_of(divs[i].inner.as_str());
        apply_pair(&mut cleaned, divs[i].outer.as_str(), &inner);
        proof {
            let p2 = pairs.push((divs@[i as int].outer@, divs@[i as int].inner@));
            assert(p2.drop_last() == pairs);
            assert(base1 + tag_views(divs@).take(i + 1) =~= p2);
            pairs = p2;
        }
        i = i + 1;
    }
    assert(tag_views(divs@).take(divs@.len() as int) == tag_views(divs@));
    let ghost base2 = pairs;
    i = 0;
    while i < images.len()
        invariant
            i <= images@.len(),
            pairs == base2 + image_views(images@).take(i as int).map_values(
                |m: (Seq<char>, Seq<char>, Seq<char>)| (m.0, image_markdown(m.1, m.2)),
            ),
            cleaned@ == apply_replacements(html@, pairs),
        decreases images@.len() - i,
    {
        let mut md = String::from_str("![");
        md.append(images[i].alt.as_str());
        md.append("](");
        md.append(images[i].src.as_str());
        md.append(")");
        let to = text::chars_of(md.as_str());
        apply_pair(&mut cleaned, images[i].outer.as_str(), &to);
        proof {
            let m = images@[i as int];
            let p2 = pairs.push((m.outer@, image_markdown(m.alt@, m.src@)));
            assert(p2.drop_last() == pairs);
            assert(base2 + image_views(images@).take(i + 1).map_values(
                |m: (Seq<char>, Seq<char>, Seq<char>)| (m.0, image_markdown(m.1, m.2)),
            ) =~= p2);
            pairs = p2;
        }
        i = i + 1;
    }
    assert(image_views(images@).take(images@.len() as int) == image_views(images@));
    let ghost base3 = pairs;
    i = 0;
    while i < pres.len()
        invariant
            i <= pres@.len(),
            pairs == base3 + tag_views(pres@).take(i as int).map_values(
                |p: (Seq<char>, Seq<char>)| (p.0, preserved_pre(p.1)),
            ),
            cleaned@ == apply_replacements(html@, pairs),
        decreases pres@.len() - i,
    {
        let inner = text::chars_of(pres[i].inner.as_str());
        let nl = text::chars_of("\n");
        let esc = text::chars_of("&#10;");
        let kept = text::replace_chars(&inner, &nl, &esc);
        let mut to = text::chars_of("<pre>");
        text::push_all(&mut to, &kept);
        let close = text::chars_of("</pre>");
        text::push_all(&mut to, &close);
        apply_pair(&mut cleaned, pres[i].outer.as_str(), &to);
        proof {
            let p = pres@[i as int];
            let p2 = pairs.push((p.outer@, preserved_pre(p.inner@)));
            assert(p2.drop_last() == pairs);
            assert(base3 + tag_views(pres@).take(i + 1).map_values(
                |p: (Seq<char>, Seq<char>)| (p.0, preserved_pre(p.1)),
            ) =~= p2);
            pairs = p2;
        }
        i = i + 1;
    }
    assert(tag_views(pres@).take(pres@.len() as int) == tag_views(pres@));
    assert(pairs =~= cleaning_pairs(
        text::texts_of(scripts@),
        tag_views(divs@),
        image_views(images@),
        tag_views(pres@),
    ));
    text::string_from_chars(&cleaned)
}

} // verus!

verus! {

/// The text of an attribute, empty when it is absent.
pub open spec fn or_empty(o: Option<Seq<char>>) -> Seq<char> {
    match o {
        Some(s) => s,
        None => Seq::empty(),
    }
}

/// The replacements that one cleaning pass makes on `h`, for the script and
/// style, `div`, image and `pre` elements that `scraper` finds in it.
pub open spec fn pass_pairs(h: Seq<char>) -> Seq<(Seq<char>, Seq<char>)> {
    cleaning_pairs(
        selected_tags(h, "script, style"@).map_values(|t: (Seq<char>, Seq<char>)| t.0),
        selected_tags(h, "div"@),
        selected_attributes(h, "img"@, "alt"@, "src"@).map_values(
            |m: (Seq<char>, Option<Seq<char>>, Option<Seq<char>>)| (m.0, or_empty(m.1), or_empty(m.2)),
        ),
        selected_tags(h, "pre"@),
    )
}

/// A cleaning pass makes one replacement per element the parser finds, in
/// this order: each script or style element removed, each `div` element
/// replaced by its content, each image element replaced by the markdown
/// image of its `alt` and `src` (empty when absent), and each `pre` element
/// replaced by itself with its line breaks written as `&#10;`.
pub proof fn lemma_pass_pairs_shape(h: Seq<char>)
    ensures
        pass_pairs(h).len() == selected_tags(h, "script, style"@).len() + selected_tags(
            h,
            "div"@,
        ).len() + selected_attributes(h, "img"@, "alt"@, "src"@).len() + selected_tags(
            h,
            "pre"@,
        ).len(),
        forall|k: int|
            0 <= k < selected_tags(h, "script, style"@).len() ==> pass_pairs(h)[k] == (
                (#[trigger] selected_tags(h, "script, style"@)[k]).0,
                Seq::<char>::empty(),
            ),
        forall|k: int|
            0 <= k < selected_tags(h, "div"@).len() ==> pass_pairs(h)[selected_tags(
                h,
                "script, style"@,
            ).len() + k] == #[trigger] selected_tags(h, "div"@)[k],
        forall|k: int|
            0 <= k < selected_attributes(h, "img"@, "alt"@, "src"@).len() ==> pass_pairs(
                h,
            )[selected_tags(h, "script, style"@).len() + selected_tags(h, "div"@).len() + k] == (
                (#[trigger] selected_attributes(h, "img"@, "alt"@, "src"@)[k]).0,
                image_markdown(
                    or_empty(selected_attributes(h, "img"@, "alt"@, "src"@)[k].1),
                    or_empty(selected_attributes(h, "img"@, "alt"@, "src"@)[k].2),
                ),
            ),
        forall|k: int|
            0 <= k < selected_tags(h, "pre"@).len() ==> pass_pairs(h)[selected_tags(
                h,
                "script, style"@,
            ).len() + selected_tags(h, "div"@).len() + selected_attributes(
                h,
                "img"@,
                "alt"@,
                "src"@,
            ).len() + k] == (
                (#[trigger] selected_tags(h, "pre"@)[k]).0,
                preserved_pre(selected_tags(h, "pre"@)[k].1),
            ),
{
}

/// The text after one cleaning pass over `h`.
pub open spec fn cleaning_step(h: Seq<char>) -> Seq<char> {
    apply_replacements(h, pass_pairs(h))
}

/// The text after `k` cleaning passes over `h`.
pub open spec fn passes(h: Seq<char>, k: nat) -> Seq<char>
    decreases k,
{
    if k == 0 {
        h
    } else {
        cleaning_step(passes(h, (k - 1) as nat))
    }
}

/// Whether the text after `k` passes over `h` is left unchanged by one more.
pub open spec fn settles_at(h: Seq<char>, k: nat) -> bool {
    cleaning_step(passes(h, k)) == passes(h, k)
}

/// The cleaned form of `h`: the text at which cleaning passes stop changing
/// it (or the text after `usize::MAX` passes, if they never stop before),
/// trimmed.
pub open spec fn cleaned_text(h: Seq<char>) -> Seq<char> {
    if exists|k: nat| k <= usize::MAX && #[trigger] settles_at(h, k) {
        text::trim(passes(h, choose|k: nat| k <= usize::MAX && #[trigger] settles_at(h, k)))
    } else {
        text::trim(passes(h, usize::MAX as nat))
    }
}

/// Once a pass changes nothing, no later pass does.
pub proof fn lemma_settled_stays(h: Seq<char>, k: nat, j: nat)
    requires
        settles_at(h, k),
        k <= j,
    ensures
        passes(h, j) == passes(h, k),
    decreases j,
{
    if j > k {
        lemma_settled_stays(h, k, (j - 1) as nat);
    }
}

/// The cleaned form of a text is trimmed, and, when cleaning passes stop
/// changing the text within `usize::MAX` passes, it is the trimmed form of a
/// text that a further pass leaves unchanged.
pub proof fn lemma_cleaned_text_settled(h: Seq<char>)
    ensures
        text::trim(cleaned_text(h)) == cleaned_text(h),
        (exists|k: nat| k <= usize::MAX && #[trigger] settles_at(h, k)) ==> exists|s: Seq<char>|
            cleaned_text(h) == text::trim(s) && #[trigger] cleaning_step(s) == s,
{
    if exists|k: nat| k <= usize::MAX && #[trigger] settles_at(h, k) {
        let k = choose|k: nat| k <= usize::MAX && #[trigger] settles_at(h, k);
        text::lemma_trim_idempotent(passes(h, k));
        assert(cleaning_step(passes(h, k)) == passes(h, k));
    } else {
        text::lemma_trim_idempotent(passes(h, usize::MAX as nat));
    }
}

/// One cleaning pass over `html`: the script and style elements that the
/// HTML parser finds in it are removed, its `div` elements replaced by their
/// content, its image elements replaced by markdown images and the line
/// breaks in its `pre` elements preserved, as `rewrite_pass` does.
pub fn cleaning_pass(html: &str) -> (r: String)
    ensures
        r@ == cleaning_step(html@),
{
    let found = select_tags(html, "script, style");
    let mut scripts: Vec<String> = Vec::new();
    let mut i: usize = 0;
    while i < found.len()
        invariant
            i <= found@.len(),
            scripts@.len() == i,
            forall|j: int| 0 <= j < i ==> (#[trigger] scripts@[j])@ == found@[j].outer@,
        decreases found@.len() - i,
    {
        scripts.push(found[i].outer.clone());
        i = i + 1;
    }
    let divs = select_tags(html, "div");
    let found_images = select_attributes(html, "img", "alt", "src");
    let mut images: Vec<ImageTag> = Vec::new();
    i = 0;
    while i < found_images.len()
        invariant
            i <= found_images@.len(),
            images@.len() == i,
            forall|j: int|
                0 <= j < i ==> {
                    &&& (#[trigger] images@[j]).outer@ == found_images@[j].0@
                    &&& images@[j].alt@ == or_empty(opt_view(found_images@[j].1))
                    &&& images@[j].src@ == or_empty(opt_view(found_images@[j].2))
                },
        decreases found_images@.len() - i,
    {
        let alt = match &found_images[i].1 {
            Some(a) => a.clone(),
            None => String::new(),
        };
        let src = match &found_images[i].2 {
            Some(s) => s.clone(),
            None => String::new(),
        };
        images.push(ImageTag { outer: found_images[i].0.clone(), alt, src });
        i = i + 1;
    }
    let pres = select_tags(html, "pre");
    let r = rewrite_pass(html, &scripts, &divs, &images, &pres);
    proof {
        let h = html@;
        let st = selected_tags(h, "script, style"@);
        assert(tag_views(found@) == st);
        assert(text::texts_of(scripts@) =~= st.map_values(|t: (Seq<char>, Seq<char>)| t.0));
        let sa = selected_attributes(h, "img"@, "alt"@, "src"@);
        assert(attribute_views(found_images@) == sa);
        assert(image_views(images@) =~= sa.map_values(
            |m: (Seq<char>, Option<Seq<char>>, Option<Seq<char>>)| (m.0, or_empty(m.1), or_empty(m.2)),
        ));
    }
    r
}

/// Cleans HTML before its conversion to markdown: cleaning passes are made
/// until one changes nothing (or `usize::MAX` passes have changed
/// something), and the result is trimmed.
pub fn clean_html(html: &str) -> (r: String)
    ensures
        r@ == cleaned_text(html@),
{
    let mut cleaned = String::from_str(html);
    let mut n: usize = 0;
    while n < usize::MAX
        invariant
            cleaned@ == passes(html@, n as nat),
            forall|j: nat| j < n ==> !#[trigger] settles_at(html@, j),
        decreases usize::MAX - n,
    {
        let next = cleaning_pass(cleaned.as_str());
        assert(next@ == passes(html@, (n + 1) as nat));
        if next == cleaned {
            proof {
                assert(settles_at(html@, n as nat));
                let k = choose|k: nat| k <= usize::MAX && #[trigger] settles_at(html@, k);
                assert(k >= n);
                lemma_settled_stays(html@, n as nat, k);
            }
            let chars = text::chars_of(next.as_str());
            let t = text::trim_chars(&chars);
            return text::string_from_chars(&t);
        }
        cleaned = next;
        n = n + 1;
    }
    proof {
        if exists|k: nat| k <= usize::MAX && #[trigger] settles_at(html@, k) {
            let k = choose|k: nat| k <= usize::MAX && #[trigger] settles_at(html@, k);
            assert(k == usize::MAX);
        }
    }
    let chars = text::chars_of(cleaned.as_str());
    let t = text::trim_chars(&chars);
    text::string_from_chars(&t)
}

/// Converts an article's HTML to markdown: `html2md` renders the cleaned
/// HTML. Whether the rendering returns on every input rests on `html2md`
/// (see `render_markdown`).
pub fn html_to_markdown(html: &str) -> (md: String)
    ensures
        md@ == markdown_of(cleaned_text(html@)),
{
    let cleaned = clean_html(html);
    render_markdown(cleaned.as_str())
}

} // verus!

verus! {

/// Replacements whose patterns are non-empty and do not occur in a text leave
/// it unchanged: a cleaning pass that finds none of the elements' texts is
/// the fixed point at which cleaning stops.
pub proof fn lemma_absent_replacements_keep_text(s: Seq<char>, pairs: Seq<(Seq<char>, Seq<char>)>)
    requires
        forall|j: int|
            0 <= j < pairs.len() ==> (#[trigger] pairs[j]).0.len() > 0 && !text::occurs_in(
                s,
                pairs[j].0,
            ),
    ensures
        apply_replacements(s, pairs) == s,
    decreases pairs.len(),
{
    if pairs.len() > 0 {
        let rest = pairs.drop_last();
        assert forall|j: int| 0 <= j < rest.len() implies (#[trigger] rest[j]).0.len() > 0
            && !text::occurs_in(s, rest[j].0) by {
            assert(rest[j] == pairs[j]);
        }
        lemma_absent_replacements_keep_text(s, rest);
        let last = pairs[pairs.len() - 1];
        text::lemma_replace_absent(s, last.0, last.1);
    }
}

} // verus!
