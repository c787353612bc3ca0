//! The Markdown rendering pipeline: a single pass over the parsed event
//! stream that swallows code-block delimiters, turns code-block text into
//! highlight requests and math spans into math requests, rewrites asset
//! placeholder links, and passes every other event through.
//!
//! The external capabilities (the syntax highlighter and the math renderer)
//! are not called here: the pass produces a plan whose highlight and math
//! steps the host resolves, and the resolved events are then serialized.

use crate::site::AssetsOptions;
use crate::text::{ascii_lower_char, chars_to_string, tail_chars, to_ascii_lower_char, to_chars};
use vstd::prelude::*;
use vstd::string::*;

verus! {

/// What a link or image start event carries besides its destination; kept
/// opaque and handed back unchanged on output.
pub struct LinkExtras {
    pub link_type: pulldown_cmark::LinkType,
    pub title: pulldown_cmark::CowStr<'static>,
    pub id: pulldown_cmark::CowStr<'static>,
}

/// A parse event as the renderer reads it: the payloads the rewriting logic
/// inspects stand as plain values, everything else stays opaque.
pub enum MdEvent {
    /// A text run; adjacent runs arrive already merged.
    Text(String),
    /// Start of a code block: the fenced language tag, or `None` for an
    /// indented block.
    CodeStart(Option<String>),
    /// End of a code block.
    CodeEnd,
    /// A display-math span.
    DisplayMath(String),
    /// An inline-math span.
    InlineMath(String),
    /// Start of a link: its destination, and the rest of the tag untouched.
    LinkStart(String, LinkExtras),
    /// Start of an image: its destination, and the rest untouched.
    ImageStart(String, LinkExtras),
    /// Any other event, passed through unmodified.
    Other(pulldown_cmark::Event<'static>),
}

/// The model of an input event.
pub enum MdEventModel {
    Text(Seq<char>),
    CodeStart(Option<Seq<char>>),
    CodeEnd,
    DisplayMath(Seq<char>),
    InlineMath(Seq<char>),
    LinkStart(Seq<char>, LinkExtras),
    ImageStart(Seq<char>, LinkExtras),
    Other(pulldown_cmark::Event<'static>),
}

impl View for MdEvent {
    type V = MdEventModel;

    open spec fn view(&self) -> MdEventModel {
        match self {
            MdEvent::Text(t) => MdEventModel::Text(t@),
            MdEvent::CodeStart(l) => MdEventModel::CodeStart(l.deep_view()),
            MdEvent::CodeEnd => MdEventModel::CodeEnd,
            MdEvent::DisplayMath(e) => MdEventModel::DisplayMath(e@),
            MdEvent::InlineMath(e) => MdEventModel::InlineMath(e@),
            MdEvent::LinkStart(d, x) => MdEventModel::LinkStart(d@, *x),
            MdEvent::ImageStart(d, x) => MdEventModel::ImageStart(d@, *x),
            MdEvent::Other(e) => MdEventModel::Other(*e),
        }
    }
}

/// An output event handed to the HTML serializer.
pub enum OutEvent {
    /// A raw HTML fragment replacing a swallowed construct.
    Html(String),
    /// A plain text run.
    Text(String),
    /// Start of a link with its (possibly rewritten) destination.
    LinkStart(String, LinkExtras),
    /// Start of an image with its (possibly rewritten) destination.
    ImageStart(String, LinkExtras),
    /// Any other event, passed through unmodified.
    Other(pulldown_cmark::Event<'static>),
}

/// The model of an output event.
pub enum OutEventModel {
    Html(Seq<char>),
    Text(Seq<char>),
    LinkStart(Seq<char>, LinkExtras),
    ImageStart(Seq<char>, LinkExtras),
    Other(pulldown_cmark::Event<'static>),
}

impl View for OutEvent {
    type V = OutEventModel;

    open spec fn view(&self) -> OutEventModel {
        match self {
            OutEvent::Html(s) => OutEventModel::Html(s@),
            OutEvent::Text(s) => OutEventModel::Text(s@),
            OutEvent::LinkStart(d, x) => OutEventModel::LinkStart(d@, *x),
            OutEvent::ImageStart(d, x) => OutEventModel::ImageStart(d@, *x),
            OutEvent::Other(e) => OutEventModel::Other(*e),
        }
    }
}

/// One step of the render plan: an event to emit as it stands, or a request
/// to one of the external capabilities.
pub enum RenderStep {
    /// Emit this event.
    Emit(OutEvent),
    /// Hand this code to the highlighter with this language tag; the result,
    /// wrapped in a preformatted element, replaces the code block.
    Highlight { code: String, lang: String },
    /// Hand this equation to the math renderer; its raw HTML output replaces
    /// the span.
    Math { equation: String, display: bool },
}

/// The model of a render step.
pub enum RenderStepModel {
    Emit(OutEventModel),
    Highlight { code: Seq<char>, lang: Seq<char> },
    Math { equation: Seq<char>, display: bool },
}

impl View for RenderStep {
    type V = RenderStepModel;

    open spec fn view(&self) -> RenderStepModel {
        match self {
            RenderStep::Emit(e) => RenderStepModel::Emit(e@),
            RenderStep::Highlight { code, lang } => RenderStepModel::Highlight {
                code: code@,
                lang: lang@,
            },
            RenderStep::Math { equation, display } => RenderStepModel::Math {
                equation: equation@,
                display: *display,
            },
        }
    }
}

/// The model sequence of an input event vector.
pub open spec fn events_model(s: Seq<MdEvent>) -> Seq<MdEventModel> {
    s.map_values(|e: MdEvent| e@)
}

/// The model sequence of a render step vector.
pub open spec fn steps_model(s: Seq<RenderStep>) -> Seq<RenderStepModel> {
    s.map_values(|e: RenderStep| e@)
}

/// The model sequence of an output event vector.
pub open spec fn out_events_model(s: Seq<OutEvent>) -> Seq<OutEventModel> {
    s.map_values(|e: OutEvent| e@)
}

/// The asset placeholder marker `/$ASSETS/` in its lower-case spelling; a
/// destination is matched against it ASCII-case-insensitively.
pub open spec fn asset_marker() -> Seq<char> {
    seq!['/', '$', 'a', 's', 's', 'e', 't', 's', '/']
}

/// The marker occurs at position `i` of `dest`, compared case-insensitively.
pub open spec fn marker_at(dest: Seq<char>, i: int) -> bool {
    &&& 0 <= i
    &&& i + asset_marker().len() <= dest.len()
    &&& forall|k: int|
        0 <= k < asset_marker().len() ==> ascii_lower_char(#[trigger] dest[i + k])
            == asset_marker()[k]
}

/// Position of the first marker occurrence at or after `i` that is followed
/// by at least one further character, if any.
pub open spec fn find_marker(dest: Seq<char>, i: int) -> Option<int>
    decreases dest.len() - i,
{
    if i < 0 || i + asset_marker().len() >= dest.len() {
        None
    } else if marker_at(dest, i) {
        Some(i)
    } else {
        find_marker(dest, i + 1)
    }
}

/// The rewritten destination for a marker at `m`:
/// `/<directory>/<articles>/<id>/<path>` with `<path>` everything past the
/// marker.
pub open spec fn rewritten_dest(
    dest: Seq<char>,
    m: int,
    id: Seq<char>,
    dir: Seq<char>,
    seg: Seq<char>,
) -> Seq<char> {
    "/"@ + dir + "/"@ + seg + "/"@ + id + "/"@ + dest.skip(m + asset_marker().len())
}

/// A destination after link rewriting: rewritten at the first marker, or
/// unchanged when no marker occurs.
pub open spec fn dest_after_rewrite(
    dest: Seq<char>,
    id: Seq<char>,
    dir: Seq<char>,
    seg: Seq<char>,
) -> Seq<char> {
    match find_marker(dest, 0) {
        Some(m) => rewritten_dest(dest, m, id, dir, seg),
        None => dest,
    }
}

/// Rewrites an asset-placeholder destination for the given article, or
/// returns `None` when the destination carries no placeholder (ordinary
/// links pass through unchanged).
pub fn try_rewrite_assets_link(dest: &str, article_id: &str, assets: &AssetsOptions) -> (r: Option<
    String,
>)
    ensures
        (match find_marker(dest@, 0) {
            Some(m) => r matches Some(u) && u@ == rewritten_dest(
                dest@,
                m,
                article_id@,
                assets.directory@,
                assets.articles@,
            ),
            None => r is None,
        }),
{
    let d = to_chars(dest);
    let n = d.len();
    let mut i: usize = 0;
    while n - i > 9
        invariant
            i <= n,
            n == dest@.len(),
            d@ == dest@,
            find_marker(dest@, 0) == find_marker(dest@, i as int),
        decreases n - i,
    {
        let hit = to_ascii_lower_char(d[i]) == '/' && to_ascii_lower_char(d[i + 1]) == '$'
            && to_ascii_lower_char(d[i + 2]) == 'a' && to_ascii_lower_char(d[i + 3]) == 's'
            && to_ascii_lower_char(d[i + 4]) == 's' && to_ascii_lower_char(d[i + 5]) == 'e'
            && to_ascii_lower_char(d[i + 6]) == 't' && to_ascii_lower_char(d[i + 7]) == 's'
            && to_ascii_lower_char(d[i + 8]) == '/';
        proof {
            assert(asset_marker()[0] == '/' && asset_marker()[1] == '$' && asset_marker()[2] == 'a'
                && asset_marker()[3] == 's' && asset_marker()[4] == 's' && asset_marker()[5] == 'e'
                && asset_marker()[6] == 't' && asset_marker()[7] == 's' && asset_marker()[8]
                == '/');
        }
        if hit {
            proof {
                assert forall|k: int|
                    0 <= k < asset_marker().len() implies ascii_lower_char(
                    #[trigger] dest@[i + k],
                ) == asset_marker()[k] by {
                    assert(ascii_lower_char(dest@[i as int]) == '/');
                    assert(ascii_lower_char(dest@[i + 1]) == '$');
                    assert(ascii_lower_char(dest@[i + 2]) == 'a');
                    assert(ascii_lower_char(dest@[i + 3]) == 's');
                    assert(ascii_lower_char(dest@[i + 4]) == 's');
                    assert(ascii_lower_char(dest@[i + 5]) == 'e');
                    assert(ascii_lower_char(dest@[i + 6]) == 't');
                    assert(ascii_lower_char(dest@[i + 7]) == 's');
                    assert(ascii_lower_char(dest@[i + 8]) == '/');
                }
                assert(marker_at(dest@, i as int));
                assert(find_marker(dest@, i as int) == Some(i as int));
            }
            let path = tail_chars(&d, i + 9);
            let path_str = chars_to_string(&path);
            let mut s = String::new();
            s.append("/");
            s.append(assets.directory.as_str());
            s.append("/");
            s.append(assets.articles.as_str());
            s.append("/");
            s.append(article_id);
            s.append("/");
            s.append(path_str.as_str());
            proof {
                assert(s@ =~= rewritten_dest(
                    dest@,
                    i as int,
                    article_id@,
                    assets.directory@,
                    assets.articles@,
                ));
            }
            return Some(s);
        }
        proof {
            assert(!marker_at(dest@, i as int)) by {
                if marker_at(dest@, i as int) {
                    assert(ascii_lower_char(dest@[i + 0]) == asset_marker()[0]);
                    assert(ascii_lower_char(dest@[i + 1]) == asset_marker()[1]);
                    assert(ascii_lower_char(dest@[i + 2]) == asset_marker()[2]);
                    assert(ascii_lower_char(dest@[i + 3]) == asset_marker()[3]);
                    assert(ascii_lower_char(dest@[i + 4]) == asset_marker()[4]);
                    assert(ascii_lower_char(dest@[i + 5]) == asset_marker()[5]);
                    assert(ascii_lower_char(dest@[i + 6]) == asset_marker()[6]);
                    assert(ascii_lower_char(dest@[i + 7]) == asset_marker()[7]);
                    assert(ascii_lower_char(dest@[i + 8]) == asset_marker()[8]);
                }
            }
            assert(find_marker(dest@, i as int) == find_marker(dest@, i + 1));
        }
        i = i + 1;
    }
    proof {
        assert(find_marker(dest@, i as int) is None);
    }
    None
}

/// The renderer's running state and the plan gathered so far.
pub struct PlanState {
    pub steps: Seq<RenderStepModel>,
    pub in_code: bool,
    pub lang: Seq<char>,
}

/// One event's contribution to the plan. Code-block delimiters toggle the
/// state and emit nothing; a fenced start records the language tag and an
/// indented start clears it; text inside a code block becomes a highlight
/// request carrying the current tag; math spans become math requests; link
/// and image destinations are rewritten; every other event passes through.
pub open spec fn plan_step(
    st: PlanState,
    ev: MdEventModel,
    id: Seq<char>,
    dir: Seq<char>,
    seg: Seq<char>,
) -> PlanState {
    match ev {
        MdEventModel::Text(t) => if st.in_code {
            PlanState {
                steps: st.steps.push(RenderStepModel::Highlight { code: t, lang: st.lang }),
                in_code: st.in_code,
                lang: st.lang,
            }
        } else {
            PlanState {
                steps: st.steps.push(RenderStepModel::Emit(OutEventModel::Text(t))),
                in_code: st.in_code,
                lang: st.lang,
            }
        },
        MdEventModel::CodeStart(l) => PlanState {
            steps: st.steps,
            in_code: true,
            lang: match l {
                Some(tag) => tag,
                None => Seq::empty(),
            },
        },
        MdEventModel::CodeEnd => PlanState { steps: st.steps, in_code: false, lang: st.lang },
        MdEventModel::DisplayMath(e) => PlanState {
            steps: st.steps.push(RenderStepModel::Math { equation: e, display: true }),
            in_code: st.in_code,
            lang: st.lang,
        },
        MdEventModel::InlineMath(e) => PlanState {
            steps: st.steps.push(RenderStepModel::Math { equation: e, display: false }),
            in_code: st.in_code,
            lang: st.lang,
        },
        MdEventModel::LinkStart(d, x) => PlanState {
            steps: st.steps.push(
                RenderStepModel::Emit(OutEventModel::LinkStart(dest_after_rewrite(d, id, dir, seg), x)),
            ),
            in_code: st.in_code,
            lang: st.lang,
        },
        MdEventModel::ImageStart(d, x) => PlanState {
            steps: st.steps.push(
                RenderStepModel::Emit(OutEventModel::ImageStart(dest_after_rewrite(d, id, dir, seg), x)),
            ),
            in_code: st.in_code,
            lang: st.lang,
        },
        MdEventModel::Other(e) => PlanState {
            steps: st.steps.push(RenderStepModel::Emit(OutEventModel::Other(e))),
            in_code: st.in_code,
            lang: st.lang,
        },
    }
}

/// The state after planning the first `i` events.
pub open spec fn plan_upto(
    evs: Seq<MdEventModel>,
    i: int,
    id: Seq<char>,
    dir: Seq<char>,
    seg: Seq<char>,
) -> PlanState
    decreases i,
{
    if i <= 0 {
        PlanState { steps: Seq::empty(), in_code: false, lang: Seq::empty() }
    } else {
        plan_step(plan_upto(evs, i - 1, id, dir, seg), evs[i - 1], id, dir, seg)
    }
}

/// The full render plan of an event stream.
pub open spec fn plan_of(
    evs: Seq<MdEventModel>,
    id: Seq<char>,
    dir: Seq<char>,
    seg: Seq<char>,
) -> Seq<RenderStepModel> {
    plan_upto(evs, evs.len() as int, id, dir, seg).steps
}

/// Plans the rendering of a merged event stream: the single pass that tracks
/// code blocks, requests highlighting and math, and rewrites asset links.
pub fn plan_events(events: Vec<MdEvent>, article_id: &str, assets: &AssetsOptions) -> (steps: Vec<
    RenderStep,
>)
    ensures
        steps_model(steps@) == plan_of(
            events_model(events@),
            article_id@,
            assets.directory@,
            assets.articles@,
        ),
{
    let total = events.len();
    proof {
        assert(events@.len() == total);
    }
    let ghost orig = events@;
    let ghost evm = events_model(events@);
    let ghost id = article_id@;
    let ghost dir = assets.directory@;
    let ghost seg = assets.articles@;
    let mut events = events;
    let mut steps: Vec<RenderStep> = Vec::new();
    let mut in_code = false;
    let mut lang = String::new();
    let mut i: usize = 0;
    proof {
        assert(steps_model(steps@) =~= Seq::<RenderStepModel>::empty());
    }
    while events.len() > 0
        invariant
            i <= orig.len(),
            orig.len() <= usize::MAX,
            events@ == orig.skip(i as int),
            evm == events_model(orig),
            id == article_id@,
            dir == assets.directory@,
            seg == assets.articles@,
            plan_upto(evm, i as int, id, dir, seg) == (PlanState {
                steps: steps_model(steps@),
                in_code,
                lang: lang@,
            }),
        decreases events@.len(),
    {
        let ev = events.remove(0);
        let ghost st = plan_upto(evm, i as int, id, dir, seg);
        proof {
            assert(orig.skip(i as int)[0] == orig[i as int]);
            assert(ev == orig[i as int]);
            assert(evm[i as int] == ev@);
            assert(events@ =~= orig.skip(i + 1));
            assert(plan_upto(evm, i + 1, id, dir, seg) == plan_step(st, ev@, id, dir, seg));
        }
        match ev {
            MdEvent::Text(t) => {
                if in_code {
                    let code_lang = lang.clone();
                    steps.push(RenderStep::Highlight { code: t, lang: code_lang });
                } else {
                    steps.push(RenderStep::Emit(OutEvent::Text(t)));
                }
                proof {
                    assert(steps_model(steps@) =~= st.steps.push(steps@.last()@));
                }
            },
            MdEvent::CodeStart(l) => {
                match l {
                    Some(tag) => {
                        lang = tag;
                    },
                    None => {
                        lang = String::new();
                    },
                }
                in_code = true;
            },
            MdEvent::CodeEnd => {
                in_code = false;
            },
            MdEvent::DisplayMath(e) => {
                steps.push(RenderStep::Math { equation: e, display: true });
                proof {
                    assert(steps_model(steps@) =~= st.steps.push(steps@.last()@));
                }
            },
            MdEvent::InlineMath(e) => {
                steps.push(RenderStep::Math { equation: e, display: false });
                proof {
                    assert(steps_model(steps@) =~= st.steps.push(steps@.last()@));
                }
            },
            MdEvent::LinkStart(dest, x) => {
                let ghost dv = dest@;
                let rewritten = try_rewrite_assets_link(dest.as_str(), article_id, assets);
                let nd = match rewritten {
                    Some(u) => u,
                    None => dest,
                };
                proof {
                    assert(nd@ == dest_after_rewrite(dv, id, dir, seg));
                }
                steps.push(RenderStep::Emit(OutEvent::LinkStart(nd, x)));
                proof {
                    assert(steps_model(steps@) =~= st.steps.push(steps@.last()@));
                }
            },
            MdEvent::ImageStart(dest, x) => {
                let ghost dv = dest@;
                let rewritten = try_rewrite_assets_link(dest.as_str(), article_id, assets);
                let nd = match rewritten {
                    Some(u) => u,
                    None => dest,
                };
                proof {
                    assert(nd@ == dest_after_rewrite(dv, id, dir, seg));
                }
                steps.push(RenderStep::Emit(OutEvent::ImageStart(nd, x)));
                proof {
                    assert(steps_model(steps@) =~= st.steps.push(steps@.last()@));
                }
            },
            MdEvent::Other(e) => {
                steps.push(RenderStep::Emit(OutEvent::Other(e)));
                proof {
                    assert(steps_model(steps@) =~= st.steps.push(steps@.last()@));
                }
            },
        }
        i = i + 1;
    }
    proof {
        assert(orig.skip(i as int).len() == 0);
        assert(i == orig.len());
        assert(evm.len() == orig.len());
    }
    steps
}

/// Maps the external highlighter's raw result to the HTML fragment used: the
/// fragment itself when one came back, a visible error placeholder when none
/// did. A failing highlighter never fails the surrounding render.
pub fn highlight_code(raw: Option<String>) -> (r: String)
    ensures
        (raw matches Some(h) ==> r@ == h@),
        raw is None ==> r@ == "<div class=\"error\">Error highlighting code</div>"@,
{
    match raw {
        Some(h) => h,
        None => String::from_str("<div class=\"error\">Error highlighting code</div>"),
    }
}

/// Wraps a highlighted code fragment in the preformatted element that
/// replaces its code block.
pub fn code_block_html(highlighted: &str) -> (r: String)
    ensures
        r@ == "<pre>"@ + highlighted@ + "</pre>"@,
{
    let mut s = String::new();
    s.append("<pre>");
    s.append(highlighted);
    s.append("</pre>");
    proof {
        assert(s@ =~= "<pre>"@ + highlighted@ + "</pre>"@);
    }
    s
}

/// A raw Markdown article body bound to its article id.
pub struct MarkdownArticle {
    pub id: String,
    pub content: String,
}

impl MarkdownArticle {
    /// Binds a Markdown body to the article it belongs to.
    pub fn new(content: String, id: String) -> (r: MarkdownArticle)
        ensures
            r.id@ == id@,
            r.content@ == content@,
    {
        MarkdownArticle { id, content }
    }

    /// Parses the body through the external Markdown parser and plans its
    /// rendering: the steps are exactly the plan of the body's parsed event
    /// stream, so equal content, id and configuration plan alike.
    pub fn plan(&self, assets: &AssetsOptions) -> (steps: Vec<RenderStep>)
        ensures
            steps_model(steps@) == plan_of(
                crate::cmark::md_events_of(self.content@),
                self.id@,
                assets.directory@,
                assets.articles@,
            ),
    {
        let events = crate::cmark::parse_markdown_events(self.content.as_str());
        plan_events(events, self.id.as_str(), assets)
    }
}

/// Serializes resolved output events to HTML through the external
/// serializer; the result is a function of the events alone, so equal
/// resolved streams yield equal HTML.
pub fn events_to_html(events: Vec<OutEvent>) -> (r: String)
    ensures
        r@ == crate::cmark::html_of(out_events_model(events@)),
{
    crate::cmark::serialize_events(events)
}

} // verus!
