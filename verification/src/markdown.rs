//! Markdown to sanitized HTML.

use vstd::prelude::*;
use crate::text::occurs_in;

verus! {

/// The HTML that pulldown-cmark writes for a Markdown text, with the GFM
/// table and strikethrough extensions switched on or off.
pub uninterp spec fn commonmark_html(text: Seq<char>, tables: bool, strikethrough: bool) -> Seq<char>;

/// The HTML that ammonia's default cleaner keeps of an HTML text.
pub uninterp spec fn ammonia_clean(html: Seq<char>) -> Seq<char>;

/// The HTML shown for a Markdown text: rendered with tables and
/// strikethrough, then sanitized.
pub open spec fn rendered_markdown(text: Seq<char>) -> Seq<char> {
    ammonia_clean(commonmark_html(text, true, true))
}

/// `pulldown_cmark::html::push_html` into an empty `String`, fed by
/// `pulldown_cmark::Parser::new_ext` on `text` with the options that the two
/// flags set. Claimed: the result is the name `commonmark_html` of the text
/// and the two flags.
#[verifier::external_body]
fn render_commonmark(text: &str, tables: bool, strikethrough: bool) -> (r: String)
    ensures
        r@ == commonmark_html(text@, tables, strikethrough),
{
    let mut options = pulldown_cmark::Options::empty();
    options.set(pulldown_cmark::Options::ENABLE_TABLES, tables);
    options.set(pulldown_cmark::Options::ENABLE_STRIKETHROUGH, strikethrough);
    let mut html = String::new();
    pulldown_cmark::html::push_html(&mut html, pulldown_cmark::Parser::new_ext(text, options));
    html
}

/// `ammonia::clean`. Claimed: the result is the name `ammonia_clean` of
/// the input, and holds no `<script`: the default cleaner drops `script`
/// elements with their content and allows no tag of that name, and the
/// serializer writes every `<` of text and of attribute values as `&lt;`.
/// Nothing further about which markup survives is stated.
#[verifier::external_body]
fn sanitize_html(html: &str) -> (r: String)
    ensures
        r@ == ammonia_clean(html@),
        !occurs_in("<script"@, r@),
{
    ammonia::clean(html)
}

/// Render Markdown to HTML with tables and strikethrough, then strip
/// anything unsafe (scripts, event handlers) from the result.
pub fn parse_markdown(content: String) -> (r: Result<String, String>)
    ensures
        r matches Ok(html) && html@ == rendered_markdown(content@),
        r matches Ok(html) && html@ == ammonia_clean(commonmark_html(content@, true, true)),
        r matches Ok(html) && !occurs_in("<script"@, html@),
{
    let rendered = render_commonmark(content.as_str(), true, true);
    Ok(sanitize_html(rendered.as_str()))
}

/// The shown HTML is the sanitized rendering of the whole Markdown text,
/// with tables and strikethrough on: nothing of the text is cut or changed
/// before pulldown-cmark reads it, and nothing of its HTML before ammonia
/// reads it.
pub proof fn lemma_renders_whole_text(text: Seq<char>)
    ensures
        rendered_markdown(text) == ammonia_clean(commonmark_html(text, true, true)),
{
}

} // verus!
