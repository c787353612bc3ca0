use blog_core::markdown::{self, MarkdownArticle, OutEvent, RenderStep};
use blog_core::site::AssetsOptions;

fn assets() -> AssetsOptions {
    AssetsOptions { directory: "assets".to_string(), articles: "articles".to_string() }
}

fn plan_of(md: &str, id: &str) -> Vec<RenderStep> {
    MarkdownArticle::new(md.to_string(), id.to_string()).plan(&assets())
}

fn render_with<H: Fn(&str, &str) -> Option<String>>(md: &str, id: &str, highlighter: H) -> String {
    let steps = plan_of(md, id);
    let mut out = Vec::new();
    for step in steps {
        match step {
            RenderStep::Emit(ev) => out.push(ev),
            RenderStep::Highlight { code, lang } => {
                let html = markdown::highlight_code(highlighter(&code, &lang));
                out.push(OutEvent::Html(markdown::code_block_html(&html)));
            }
            RenderStep::Math { equation, display } => {
                let mode = if display { "display" } else { "inline" };
                out.push(OutEvent::Html(format!("<span class=\"math-{}\">{}</span>", mode, equation)));
            }
        }
    }
    markdown::events_to_html(out)
}

#[test]
fn fenced_code_block_reaches_the_highlighter_with_its_language() {
    let steps = plan_of("```rust\nfn main() {}\n```", "my-post");
    let highlights: Vec<(&str, &str)> = steps
        .iter()
        .filter_map(|s| match s {
            RenderStep::Highlight { code, lang } => Some((code.as_str(), lang.as_str())),
            _ => None,
        })
        .collect();
    assert_eq!(highlights, vec![("fn main() {}\n", "rust")]);

    let html = render_with("```rust\nfn main() {}\n```", "my-post", |code, lang| {
        Some(format!("HL[{}|{}]", lang, code.trim_end()))
    });
    assert!(html.contains("<pre>HL[rust|fn main() {}]</pre>"), "html was: {html}");
}

#[test]
fn indented_code_block_clears_the_language_tag() {
    // A fenced block first, so a stale language tag would be visible.
    let md = "```rust\nlet x = 1;\n```\n\nwords\n\n    indented code\n";
    let steps = plan_of(md, "my-post");
    let langs: Vec<&str> = steps
        .iter()
        .filter_map(|s| match s {
            RenderStep::Highlight { lang, .. } => Some(lang.as_str()),
            _ => None,
        })
        .collect();
    assert_eq!(langs, vec!["rust", ""]);
}

#[test]
fn failed_highlighting_degrades_to_a_placeholder() {
    assert_eq!(markdown::highlight_code(Some("ok".to_string())), "ok");
    assert_eq!(
        markdown::highlight_code(None),
        "<div class=\"error\">Error highlighting code</div>"
    );
    assert_eq!(markdown::code_block_html("X"), "<pre>X</pre>");

    let html = render_with("```rust\nfn main() {}\n```", "my-post", |_, _| None);
    assert!(html.contains("<pre><div class=\"error\">Error highlighting code</div></pre>"));
}

#[test]
fn math_spans_request_the_right_mode() {
    let steps = plan_of("inline $x^2$ and display\n\n$$y_1$$", "my-post");
    let maths: Vec<(&str, bool)> = steps
        .iter()
        .filter_map(|s| match s {
            RenderStep::Math { equation, display } => Some((equation.as_str(), *display)),
            _ => None,
        })
        .collect();
    assert_eq!(maths, vec![("x^2", false), ("y_1", true)]);

    let html = render_with("so $x^2$ holds", "my-post", |_, _| None);
    assert!(html.contains("<span class=\"math-inline\">x^2</span>"), "html was: {html}");
}

#[test]
fn asset_links_are_rewritten_and_others_pass_through() {
    let a = assets();
    assert_eq!(
        markdown::try_rewrite_assets_link("/$ASSETS/diagram.png", "my-post", &a),
        Some("/assets/articles/my-post/diagram.png".to_string())
    );
    // Case-insensitive marker.
    assert_eq!(
        markdown::try_rewrite_assets_link("/$assets/photo.jpg", "my-post", &a),
        Some("/assets/articles/my-post/photo.jpg".to_string())
    );
    // No placeholder, or nothing after it: untouched.
    assert_eq!(markdown::try_rewrite_assets_link("https://example.com", "my-post", &a), None);
    assert_eq!(markdown::try_rewrite_assets_link("/other/path.png", "my-post", &a), None);
    assert_eq!(markdown::try_rewrite_assets_link("/$ASSETS/", "my-post", &a), None);

    let html = render_with(
        "[diagram](/$ASSETS/diagram.png) and [out](https://example.com)",
        "my-post",
        |_, _| None,
    );
    assert!(html.contains("href=\"/assets/articles/my-post/diagram.png\""), "html was: {html}");
    assert!(html.contains("href=\"https://example.com\""), "html was: {html}");

    let html = render_with("![shot](/$ASSETS/shot.png)", "my-post", |_, _| None);
    assert!(html.contains("src=\"/assets/articles/my-post/shot.png\""), "html was: {html}");
}

#[test]
fn ordinary_markdown_passes_through_to_html() {
    let html = render_with("# Heading\n\nSome *emphasis* here.", "my-post", |_, _| None);
    assert!(html.contains("<h1>Heading</h1>"), "html was: {html}");
    assert!(html.contains("<em>emphasis</em>"), "html was: {html}");
}
