use vstd::prelude::*;
use pulldown_cmark::{Event, Options, Parser, Tag};

verus! {

/// Markdown extension flags, with the bit values that `pulldown_cmark::Options` gives them.
pub const ENABLE_TABLES: u32 = 2;
pub const ENABLE_FOOTNOTES: u32 = 4;
pub const ENABLE_STRIKETHROUGH: u32 = 8;
pub const ENABLE_TASKLISTS: u32 = 16;
pub const ENABLE_SMART_PUNCTUATION: u32 = 32;
pub const ENABLE_HEADING_ATTRIBUTES: u32 = 64;

/// No extension: plain CommonMark.
pub const NO_OPTIONS: u32 = 0;

/// The extensions a post page is rendered with.
pub const POST_OPTIONS: u32 = ENABLE_STRIKETHROUGH | ENABLE_TABLES | ENABLE_FOOTNOTES
    | ENABLE_TASKLISTS | ENABLE_SMART_PUNCTUATION | ENABLE_HEADING_ATTRIBUTES;

/// What the metadata scan reads of a markdown parser event.
pub enum MdEvent {
    /// The start of a heading of the given level (1 to 6).
    HeadingStart(u8),
    /// A run of text.
    Text(String),
    /// Any other event.
    Other,
}

/// `MdEvent` with its text as a character sequence.
pub enum MdEventView {
    HeadingStart(u8),
    Text(Seq<char>),
    Other,
}

impl View for MdEvent {
    type V = MdEventView;

    open spec fn view(&self) -> MdEventView {
        match self {
            MdEvent::HeadingStart(l) => MdEventView::HeadingStart(*l),
            MdEvent::Text(t) => MdEventView::Text(t@),
            MdEvent::Other => MdEventView::Other,
        }
    }
}

/// The views of a sequence of events.
pub open spec fn events_view(v: Seq<MdEvent>) -> Seq<MdEventView> {
    v.map_values(|e: MdEvent| e@)
}

/// The event stream that pulldown-cmark produces for `text` under the extension flags `options`.
pub uninterp spec fn markdown_events(text: Seq<char>, options: u32) -> Seq<MdEventView>;

/// The HTML that pulldown-cmark renders for `text` under the extension flags `options`.
pub uninterp spec fn markdown_html(text: Seq<char>, options: u32) -> Seq<char>;

/// Runs `pulldown_cmark::Parser::new_ext` over `text` and keeps, of each event, whether it
/// starts a heading (and its level), is text (and which), or is anything else.
///
/// Trusted: the events come out in the parser's order, one for one; the parser is a
/// deterministic function of the text and the flags, so the result is named.
#[verifier::external_body]
fn parse_markdown(text: &str, options: u32) -> (r: Vec<MdEvent>)
    ensures
        events_view(r@) == markdown_events(text@, options),
{
    let mut out = Vec::new();
    for event in Parser::new_ext(text, Options::from_bits_truncate(options)) {
        out.push(match event {
            Event::Start(Tag::Heading(level, _, _)) => MdEvent::HeadingStart(level as u8),
            Event::Text(t) => MdEvent::Text(t.to_string()),
            _ => MdEvent::Other,
        });
    }
    out
}

/// Renders `text` to HTML with `pulldown_cmark::html::push_html` over
/// `pulldown_cmark::Parser::new_ext(text, options)`.
///
/// Trusted: the rendering is a deterministic function of the text and the flags, so
/// the result is named.
#[verifier::external_body]
fn render_markdown(text: &str, options: u32) -> (r: String)
    ensures
        r@ == markdown_html(text@, options),
{
    let mut out = String::new();
    pulldown_cmark::html::push_html(&mut out, Parser::new_ext(text, Options::from_bits_truncate(options)));
    out
}

/// The text of the first text event, if there is one.
pub open spec fn first_text(ev: Seq<MdEventView>) -> Option<Seq<char>>
    decreases ev.len(),
{
    if ev.len() == 0 {
        None
    } else {
        match ev[0] {
            MdEventView::Text(t) => Some(t),
            _ => first_text(ev.drop_first()),
        }
    }
}

/// The text of the first text event that comes before any second-level heading starts.
pub open spec fn text_before_h2(ev: Seq<MdEventView>) -> Option<Seq<char>>
    decreases ev.len(),
{
    if ev.len() == 0 {
        None
    } else {
        match ev[0] {
            MdEventView::Text(t) => Some(t),
            MdEventView::HeadingStart(l) => if l == 2 {
                None
            } else {
                text_before_h2(ev.drop_first())
            },
            MdEventView::Other => text_before_h2(ev.drop_first()),
        }
    }
}

/// The first text inside the section of the first second-level heading: the first text
/// event after that heading starts and before the next second-level heading starts.
pub open spec fn text_after_first_h2(ev: Seq<MdEventView>) -> Option<Seq<char>>
    decreases ev.len(),
{
    if ev.len() == 0 {
        None
    } else {
        match ev[0] {
            MdEventView::HeadingStart(l) => if l == 2 {
                text_before_h2(ev.drop_first())
            } else {
                text_after_first_h2(ev.drop_first())
            },
            _ => text_after_first_h2(ev.drop_first()),
        }
    }
}

/// The text a page shows where a title or date is missing.
pub open spec fn untitled() -> Seq<char> {
    "Untitled"@
}

/// The found text, or `untitled()` when nothing, or only an empty text, was found.
pub open spec fn or_untitled(t: Option<Seq<char>>) -> Seq<char> {
    match t {
        Some(s) => if s.len() > 0 {
            s
        } else {
            untitled()
        },
        None => untitled(),
    }
}

/// The title of a post: its first text, or "Untitled".
pub open spec fn title_of(ev: Seq<MdEventView>) -> Seq<char> {
    or_untitled(first_text(ev))
}

/// The date of a post: the first text under its first second-level heading, or "Untitled".
pub open spec fn date_of(ev: Seq<MdEventView>) -> Seq<char> {
    or_untitled(text_after_first_h2(ev))
}

/// The found text, or "Untitled" when it is missing or empty.
fn text_or_untitled(t: Option<String>) -> (r: String)
    ensures
        r@ == or_untitled(opt_view(t)),
{
    match t {
        Some(s) => if s.as_str().is_empty() {
            String::from_str("Untitled")
        } else {
            s
        },
        None => String::from_str("Untitled"),
    }
}

/// The view of an optional string.
pub open spec fn opt_view(t: Option<String>) -> Option<Seq<char>> {
    match t {
        Some(s) => Some(s@),
        None => None,
    }
}

/// The first text event of `events[from..]`, if any.
fn scan_first_text(events: &Vec<MdEvent>, from: usize) -> (r: Option<String>)
    requires
        from <= events@.len(),
    ensures
        opt_view(r) == first_text(events_view(events@).skip(from as int)),
{
    let ghost ev = events_view(events@);
    let mut i = from;
    while i < events.len()
        invariant
            from <= i <= events@.len(),
            ev == events_view(events@),
            first_text(ev.skip(from as int)) == first_text(ev.skip(i as int)),
        decreases events.len() - i,
    {
        assert(ev.skip(i as int)[0] == events@[i as int]@);
        assert(ev.skip(i as int).drop_first() =~= ev.skip(i + 1));
        if let MdEvent::Text(t) = &events[i] {
            return Some(t.clone());
        }
        i = i + 1;
    }
    None
}

/// The first text event of `events[from..]` before any second-level heading starts, if any.
fn scan_text_before_h2(events: &Vec<MdEvent>, from: usize) -> (r: Option<String>)
    requires
        from <= events@.len(),
    ensures
        opt_view(r) == text_before_h2(events_view(events@).skip(from as int)),
{
    let ghost ev = events_view(events@);
    let mut i = from;
    while i < events.len()
        invariant
            from <= i <= events@.len(),
            ev == events_view(events@),
            text_before_h2(ev.skip(from as int)) == text_before_h2(ev.skip(i as int)),
        decreases events.len() - i,
    {
        assert(ev.skip(i as int)[0] == events@[i as int]@);
        assert(ev.skip(i as int).drop_first() =~= ev.skip(i + 1));
        match &events[i] {
            MdEvent::Text(t) => {
                return Some(t.clone());
            },
            MdEvent::HeadingStart(level) => {
                if *level == 2 {
                    return None;
                }
            },
            MdEvent::Other => {},
        }
        i = i + 1;
    }
    None
}

/// The title of a post, given its markdown parser events (see `title_of`).
pub fn title_from_events(events: &Vec<MdEvent>) -> (r: String)
    ensures
        r@ == title_of(events_view(events@)),
{
    assert(events_view(events@).skip(0) =~= events_view(events@));
    text_or_untitled(scan_first_text(events, 0))
}

/// The date of a post, given its markdown parser events (see `date_of`).
pub fn date_from_events(events: &Vec<MdEvent>) -> (r: String)
    ensures
        r@ == date_of(events_view(events@)),
{
    let ghost ev = events_view(events@);
    let mut i: usize = 0;
    assert(ev.skip(0) =~= ev);
    while i < events.len()
        invariant
            i <= events@.len(),
            ev == events_view(events@),
            text_after_first_h2(ev) == text_after_first_h2(ev.skip(i as int)),
        decreases events.len() - i,
    {
        assert(ev.skip(i as int)[0] == events@[i as int]@);
        assert(ev.skip(i as int).drop_first() =~= ev.skip(i + 1));
        if let MdEvent::HeadingStart(level) = &events[i] {
            if *level == 2 {
                return text_or_untitled(scan_text_before_h2(events, i + 1));
            }
        }
        i = i + 1;
    }
    String::from_str("Untitled")
}

/// The title of the markdown document `content`: the text of the first text event that
/// pulldown-cmark produces for it, or "Untitled".
pub fn extract_title(content: &str) -> (r: String)
    ensures
        r@ == title_of(markdown_events(content@, NO_OPTIONS)),
{
    let events = parse_markdown(content, NO_OPTIONS);
    title_from_events(&events)
}

/// The date of the markdown document `content`: the first text under its first
/// second-level heading, or "Untitled".
pub fn extract_date(content: &str) -> (r: String)
    ensures
        r@ == date_of(markdown_events(content@, NO_OPTIONS)),
{
    let events = parse_markdown(content, NO_OPTIONS);
    date_from_events(&events)
}

/// The HTML body of a post: `content` rendered with the post extensions
/// (strikethrough, tables, footnotes, task lists, smart punctuation, heading attributes).
pub fn generate_html(content: &str) -> (r: String)
    ensures
        r@ == markdown_html(content@, POST_OPTIONS),
{
    render_markdown(content, POST_OPTIONS)
}

/// A post always has a title and a date to show: neither is ever empty.
pub proof fn lemma_title_and_date_nonempty(ev: Seq<MdEventView>)
    ensures
        title_of(ev).len() > 0,
        date_of(ev).len() > 0,
{
    reveal_strlit("Untitled");
}

proof fn lemma_first_text_at(ev: Seq<MdEventView>, i: int, t: Seq<char>)
    requires
        0 <= i < ev.len(),
        ev[i] == MdEventView::Text(t),
        forall|k: int| 0 <= k < i ==> !(#[trigger] ev[k] is Text),
    ensures
        first_text(ev) == Some(t),
    decreases i,
{
    if i > 0 {
        assert(!(ev[0] is Text));
        let d = ev.drop_first();
        assert forall|k: int| 0 <= k < i - 1 implies !(#[trigger] d[k] is Text) by {
            assert(d[k] == ev[k + 1]);
        }
        lemma_first_text_at(d, i - 1, t);
    }
}

proof fn lemma_first_text_none(ev: Seq<MdEventView>)
    requires
        forall|k: int| 0 <= k < ev.len() ==> !(#[trigger] ev[k] is Text),
    ensures
        first_text(ev) is None,
    decreases ev.len(),
{
    if ev.len() > 0 {
        assert(!(ev[0] is Text));
        let d = ev.drop_first();
        assert forall|k: int| 0 <= k < d.len() implies !(#[trigger] d[k] is Text) by {
            assert(d[k] == ev[k + 1]);
        }
        lemma_first_text_none(d);
    }
}

/// The title of a post is exactly its first text, when that text is not empty.
pub proof fn lemma_title_is_first_text(ev: Seq<MdEventView>, i: int, t: Seq<char>)
    requires
        0 <= i < ev.len(),
        ev[i] == MdEventView::Text(t),
        forall|k: int| 0 <= k < i ==> !(#[trigger] ev[k] is Text),
        t.len() > 0,
    ensures
        title_of(ev) == t,
{
    lemma_first_text_at(ev, i, t);
}

/// A post without any text, or whose first text is empty, is titled "Untitled".
pub proof fn lemma_title_untitled(ev: Seq<MdEventView>)
    requires
        forall|k: int| 0 <= k < ev.len() ==> (#[trigger] ev[k] is Text ==> ev[k]->Text_0.len()
            == 0 && forall|m: int| 0 <= m < k ==> !(#[trigger] ev[m] is Text)),
    ensures
        title_of(ev) == "Untitled"@,
{
    if exists|k: int| 0 <= k < ev.len() && #[trigger] ev[k] is Text {
        let k = choose|k: int| 0 <= k < ev.len() && #[trigger] ev[k] is Text;
        lemma_first_text_at(ev, k, ev[k]->Text_0);
    } else {
        lemma_first_text_none(ev);
    }
}

/// Whether `e` starts a second-level heading.
pub open spec fn starts_h2(e: MdEventView) -> bool {
    e == MdEventView::HeadingStart(2)
}

proof fn lemma_text_before_h2_at(ev: Seq<MdEventView>, j: int, t: Seq<char>)
    requires
        0 <= j < ev.len(),
        ev[j] == MdEventView::Text(t),
        forall|k: int| 0 <= k < j ==> !(#[trigger] ev[k] is Text) && !starts_h2(ev[k]),
    ensures
        text_before_h2(ev) == Some(t),
    decreases j,
{
    if j > 0 {
        assert(!(ev[0] is Text) && !starts_h2(ev[0]));
        let d = ev.drop_first();
        assert forall|k: int| 0 <= k < j - 1 implies !(#[trigger] d[k] is Text) && !starts_h2(d[k]) by {
            assert(d[k] == ev[k + 1]);
        }
        lemma_text_before_h2_at(d, j - 1, t);
    }
}

proof fn lemma_after_first_h2_at(ev: Seq<MdEventView>, i: int)
    requires
        0 <= i < ev.len(),
        starts_h2(ev[i]),
        forall|k: int| 0 <= k < i ==> !starts_h2(#[trigger] ev[k]),
    ensures
        text_after_first_h2(ev) == text_before_h2(ev.skip(i + 1)),
    decreases i,
{
    if i > 0 {
        assert(!starts_h2(ev[0]));
        let d = ev.drop_first();
        assert forall|k: int| 0 <= k < i - 1 implies !starts_h2(#[trigger] d[k]) by {
            assert(d[k] == ev[k + 1]);
        }
        lemma_after_first_h2_at(d, i - 1);
        assert(d.skip(i) =~= ev.skip(i + 1));
    } else {
        assert(ev.drop_first() =~= ev.skip(1));
    }
}

proof fn lemma_after_first_h2_none(ev: Seq<MdEventView>)
    requires
        forall|k: int| 0 <= k < ev.len() ==> !starts_h2(#[trigger] ev[k]),
    ensures
        text_after_first_h2(ev) is None,
    decreases ev.len(),
{
    if ev.len() > 0 {
        assert(!starts_h2(ev[0]));
        let d = ev.drop_first();
        assert forall|k: int| 0 <= k < d.len() implies !starts_h2(#[trigger] d[k]) by {
            assert(d[k] == ev[k + 1]);
        }
        lemma_after_first_h2_none(d);
    }
}

/// The date of a post is exactly the first text after its first second-level heading
/// starts, when no other text and no second such heading come in between and the text
/// is not empty.
pub proof fn lemma_date_is_first_h2_text(ev: Seq<MdEventView>, i: int, j: int, t: Seq<char>)
    requires
        0 <= i < j < ev.len(),
        starts_h2(ev[i]),
        forall|k: int| 0 <= k < i ==> !starts_h2(#[trigger] ev[k]),
        ev[j] == MdEventView::Text(t),
        forall|k: int| i < k < j ==> !(#[trigger] ev[k] is Text) && !starts_h2(ev[k]),
        t.len() > 0,
    ensures
        date_of(ev) == t,
{
    lemma_after_first_h2_at(ev, i);
    let rest = ev.skip(i + 1);
    assert forall|k: int| 0 <= k < j - i - 1 implies !(#[trigger] rest[k] is Text) && !starts_h2(
        rest[k],
    ) by {
        assert(rest[k] == ev[k + i + 1]);
    }
    lemma_text_before_h2_at(rest, j - i - 1, t);
}

/// A post without a second-level heading is dated "Untitled".
pub proof fn lemma_date_without_h2(ev: Seq<MdEventView>)
    requires
        forall|k: int| 0 <= k < ev.len() ==> !starts_h2(#[trigger] ev[k]),
    ensures
        date_of(ev) == "Untitled"@,
{
    lemma_after_first_h2_none(ev);
}

} // verus!
