//! The SVG preview renderer's text model: each preview row becomes an
//! ordered list of styled segments with HTML-escaped text, ready to be
//! placed into the fixed-size SVG canvas.

use vstd::prelude::*;

use crate::classify::{find_char, lemma_find_char_at};
use crate::timeline::{ItemV, PreviewItem};

verus! {

/// The fixed width of the SVG canvas, independent of the configured
/// terminal size.
pub fn canvas_width() -> (w: u32)
    ensures
        w == 824u32,
{
    824
}

/// The fixed height of the SVG canvas.
pub fn canvas_height() -> (h: u32)
    ensures
        h == 623u32,
{
    623
}

/// The style of one preview segment: plain text, the highlighted tail of
/// a marked command, or the green accent used for prompt labels and for
/// the full copy of a marked command.
#[derive(Clone, Copy, Debug, PartialEq, Eq, Structural)]
pub enum SegClass {
    Plain,
    Highlight,
    Green,
}

impl SegClass {
    /// The CSS class the SVG writes for this style; plain text carries
    /// none.
    pub fn css_class(&self) -> (r: Option<&'static str>)
        ensures
            match self {
                SegClass::Plain => r is None,
                SegClass::Highlight => r matches Some(c) && c@ == "fg-15"@,
                SegClass::Green => r matches Some(c) && c@ == "fg-2"@,
            },
    {
        match self {
            SegClass::Plain => None,
            SegClass::Highlight => Some("fg-15"),
            SegClass::Green => Some("fg-2"),
        }
    }
}

/// One styled span of escaped text within a preview row.
#[derive(Clone, Debug)]
pub struct Segment {
    pub class: SegClass,
    pub text: String,
}

/// The mathematical shadow of a [`Segment`].
pub ghost struct SegV {
    pub class: SegClass,
    pub text: Seq<char>,
}

impl View for Segment {
    type V = SegV;

    open spec fn view(&self) -> SegV {
        SegV { class: self.class, text: self.text@ }
    }
}

impl DeepView for Segment {
    type V = SegV;

    open spec fn deep_view(&self) -> SegV {
        self@
    }
}

/// What one character becomes under HTML escaping.
pub open spec fn escape_char(c: char) -> Seq<char> {
    if c == '&' {
        "&amp;"@
    } else if c == '<' {
        "&lt;"@
    } else if c == '>' {
        "&gt;"@
    } else if c == '"' {
        "&quot;"@
    } else if c == '\'' {
        "&#x27;"@
    } else if c == '/' {
        "&#x2F;"@
    } else {
        seq![c]
    }
}

/// HTML escaping of a whole text, character by character.
pub open spec fn escape_seq(s: Seq<char>) -> Seq<char>
    decreases s.len(),
{
    if s.len() == 0 {
        Seq::empty()
    } else {
        escape_char(s[0]) + escape_seq(s.drop_first())
    }
}

/// Relies on `html_escape::encode_safe`: it replaces each of `&`, `<`,
/// `>`, `"`, `'` and `/` by its HTML entity (`&amp;`, `&lt;`, `&gt;`,
/// `&quot;`, `&#x27;`, `&#x2F;`) and leaves every other character
/// unchanged.
#[verifier::external_body]
fn escape_text(s: &str) -> (r: String)
    ensures
        r@ == escape_seq(s@),
{
    html_escape::encode_safe(s).into_owned()
}

/// The styled segments one preview item renders to.
///
/// A prompt renders its green label (when present) and a plain `$ `.  A
/// typed command splits at the first `#` marker: the plain head, the
/// highlighted tail (marker included, mirroring what was typed bold), and
/// a green full copy of the command; with no marker it is a single plain
/// segment.  A literal line is a single plain segment of the raw text.
/// All text is escaped exactly once.
pub open spec fn item_segs(it: ItemV) -> Seq<SegV> {
    match it {
        ItemV::Prompt { label } => if label.len() == 0 {
            seq![SegV { class: SegClass::Plain, text: "$ "@ }]
        } else {
            seq![
                SegV { class: SegClass::Green, text: escape_seq(label) },
                SegV { class: SegClass::Plain, text: "$ "@ },
            ]
        },
        ItemV::Typed { text } => {
            let i = find_char(text, '#');
            if i >= text.len() {
                seq![SegV { class: SegClass::Plain, text: escape_seq(text) }]
            } else {
                seq![
                    SegV { class: SegClass::Plain, text: escape_seq(text.take(i)) },
                    SegV { class: SegClass::Highlight, text: escape_seq(text.skip(i)) },
                    SegV { class: SegClass::Green, text: escape_seq(text) },
                ]
            }
        },
        ItemV::Literal { text } => seq![SegV { class: SegClass::Plain, text: escape_seq(text) }],
    }
}

/// The segments of one whole preview row, in item order.
pub open spec fn frag_segs(f: Seq<ItemV>) -> Seq<SegV>
    decreases f.len(),
{
    if f.len() == 0 {
        Seq::empty()
    } else {
        frag_segs(f.drop_last()) + item_segs(f.last())
    }
}

/// The segments of every preview row.
pub open spec fn rows_spec(frags: Seq<Seq<ItemV>>) -> Seq<Seq<SegV>> {
    frags.map_values(|f: Seq<ItemV>| frag_segs(f))
}

/// Index of the first `#` marker; the length when there is none.
fn find_hash(s: &str) -> (i: usize)
    ensures
        i == find_char(s@, '#'),
{
    let n = s.unicode_len();
    let mut i: usize = 0;
    while i < n && s.get_char(i) != '#'
        invariant
            n == s@.len(),
            0 <= i <= n,
            forall|j: int| 0 <= j < i ==> #[trigger] s@[j] != '#',
        decreases n - i,
    {
        i = i + 1;
    }
    proof {
        lemma_find_char_at(s@, '#', i as int);
    }
    i
}

/// Render one preview item to its styled segments.
pub fn render_item(item: &PreviewItem) -> (segs: Vec<Segment>)
    ensures
        segs.deep_view() =~= item_segs(item@),
{
    let mut segs: Vec<Segment> = Vec::new();
    match item {
        PreviewItem::Prompt { label } => {
            if label.as_str().unicode_len() == 0 {
                proof {
                    assert(label@ =~= Seq::<char>::empty());
                }
                segs.push(Segment { class: SegClass::Plain, text: "$ ".to_owned() });
            } else {
                segs.push(
                    Segment { class: SegClass::Green, text: escape_text(label.as_str()) },
                );
                segs.push(Segment { class: SegClass::Plain, text: "$ ".to_owned() });
            }
        },
        PreviewItem::Typed { text } => {
            let n = text.as_str().unicode_len();
            let i = find_hash(text.as_str());
            if i >= n {
                segs.push(Segment { class: SegClass::Plain, text: escape_text(text.as_str()) });
            } else {
                let head = text.as_str().substring_char(0, i);
                let tail = text.as_str().substring_char(i, n);
                proof {
                    assert(head@ =~= text@.take(i as int));
                    assert(tail@ =~= text@.skip(i as int));
                }
                segs.push(Segment { class: SegClass::Plain, text: escape_text(head) });
                segs.push(Segment { class: SegClass::Highlight, text: escape_text(tail) });
                segs.push(Segment { class: SegClass::Green, text: escape_text(text.as_str()) });
            }
        },
        PreviewItem::Literal { text } => {
            segs.push(Segment { class: SegClass::Plain, text: escape_text(text.as_str()) });
        },
    }
    segs
}

/// Render one preview row: the segments of its items, in order.
pub fn render_fragment(frag: &Vec<PreviewItem>) -> (segs: Vec<Segment>)
    ensures
        segs.deep_view() =~= frag_segs(frag.deep_view()),
{
    let ghost f = frag.deep_view();
    let mut segs: Vec<Segment> = Vec::new();
    let mut i: usize = 0;
    let n = frag.len();
    proof {
        assert(segs.deep_view() =~= frag_segs(f.take(0)));
    }
    while i < n
        invariant
            n == frag@.len(),
            f == frag.deep_view(),
            0 <= i <= n,
            segs.deep_view() =~= frag_segs(f.take(i as int)),
        decreases n - i,
    {
        let mut part = render_item(&frag[i]);
        let ghost pre = segs.deep_view();
        segs.append(&mut part);
        proof {
            assert(f.take(i as int + 1).drop_last() =~= f.take(i as int));
            assert(f.take(i as int + 1).last() == f[i as int]);
            assert(frag[i as int]@ == f[i as int]);
            assert(segs.deep_view() =~= pre + item_segs(f[i as int]));
            assert(segs.deep_view() =~= frag_segs(f.take(i as int + 1)));
        }
        i = i + 1;
    }
    proof {
        assert(f.take(n as int) =~= f);
    }
    segs
}

/// Render every preview row for the SVG document.
pub fn render_rows(frags: &Vec<Vec<PreviewItem>>) -> (rows: Vec<Vec<Segment>>)
    ensures
        rows.deep_view() =~= rows_spec(frags.deep_view()),
{
    let ghost fs = frags.deep_view();
    let mut rows: Vec<Vec<Segment>> = Vec::new();
    let mut i: usize = 0;
    let n = frags.len();
    while i < n
        invariant
            n == frags@.len(),
            fs == frags.deep_view(),
            0 <= i <= n,
            rows.deep_view() =~= rows_spec(fs).take(i as int),
        decreases n - i,
    {
        let row = render_fragment(&frags[i]);
        proof {
            assert(frags[i as int].deep_view() == fs[i as int]);
        }
        let ghost pre = rows.deep_view();
        rows.push(row);
        proof {
            assert(rows.deep_view() =~= pre.push(row.deep_view()));
            assert(rows_spec(fs)[i as int] == frag_segs(fs[i as int]));
            assert(rows.deep_view() =~~= rows_spec(fs).take(i as int + 1));
        }
        i = i + 1;
    }
    proof {
        assert(rows_spec(fs).take(n as int) =~= rows_spec(fs));
    }
    rows
}

} // verus!
