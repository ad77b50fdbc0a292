//! Markdown rendering of the text API: which extensions a request turns on,
//! and whether the rendered HTML is sanitized; and MIME type guessing by file
//! extension.

use vstd::prelude::*;

verus! {

/// Options of a Markdown rendering request.
#[derive(Debug, Clone, Copy, PartialEq, Eq, Structural)]
pub struct TextMarkdownRenderOpts {
    pub enable_tables: bool,
    pub enable_footnotes: bool,
    pub enable_strikethrough: bool,
    pub enable_tasklists: bool,
    pub enable_smart_punctuation: bool,
    pub disable_sanitization: bool,
}

/// The bit of each `pulldown-cmark` extension.
pub const OPTION_TABLES: u32 = 2;
pub const OPTION_FOOTNOTES: u32 = 4;
pub const OPTION_STRIKETHROUGH: u32 = 8;
pub const OPTION_TASKLISTS: u32 = 16;
pub const OPTION_SMART_PUNCTUATION: u32 = 32;

/// The extension bits that the options turn on.
pub open spec fn spec_option_bits(o: TextMarkdownRenderOpts) -> u32 {
    ((if o.enable_tables { OPTION_TABLES } else { 0 }) + (if o.enable_footnotes { OPTION_FOOTNOTES } else { 0 }) + (
    if o.enable_strikethrough { OPTION_STRIKETHROUGH } else { 0 }) + (if o.enable_tasklists {
        OPTION_TASKLISTS
    } else {
        0
    }) + (if o.enable_smart_punctuation { OPTION_SMART_PUNCTUATION } else { 0 })) as u32
}

/// The extension bits that a request's options turn on.
pub fn option_bits(o: &TextMarkdownRenderOpts) -> (res: u32)
    ensures
        res == spec_option_bits(*o),
{
    let mut bits: u32 = 0;
    if o.enable_tables {
        bits = bits + OPTION_TABLES;
    }
    if o.enable_footnotes {
        bits = bits + OPTION_FOOTNOTES;
    }
    if o.enable_strikethrough {
        bits = bits + OPTION_STRIKETHROUGH;
    }
    if o.enable_tasklists {
        bits = bits + OPTION_TASKLISTS;
    }
    if o.enable_smart_punctuation {
        bits = bits + OPTION_SMART_PUNCTUATION;
    }
    bits
}

/// The HTML that `pulldown-cmark` renders from Markdown with the given
/// extension bits.
pub uninterp spec fn markdown_html_of(input: Seq<char>, bits: u32) -> Seq<char>;

/// The HTML that `ammonia` keeps of HTML.
pub uninterp spec fn sanitized_html_of(html: Seq<char>) -> Seq<char>;

/// `Parser::new_ext` and `html::push_html` of `pulldown-cmark`: the HTML of
/// the Markdown text, named.
#[verifier::external_body]
fn render_html(input: &str, bits: u32) -> (res: String)
    ensures
        res@ == markdown_html_of(input@, bits),
{
    let opts = pulldown_cmark::Options::from_bits_truncate(bits);
    let parser = pulldown_cmark::Parser::new_ext(input, opts);
    let mut out = String::new();
    pulldown_cmark::html::push_html(&mut out, parser);
    out
}

/// `ammonia::clean`: the HTML with what its default policy disallows taken
/// out, named.
#[verifier::external_body]
fn sanitize_html(html: &str) -> (res: String)
    ensures
        res@ == sanitized_html_of(html@),
{
    ammonia::clean(html)
}

/// Renders Markdown to HTML with the requested extensions, sanitized unless
/// the request turns sanitization off.
pub fn text_markdown_render(input: &str, opts: &TextMarkdownRenderOpts) -> (res: String)
    ensures
        res@ == if opts.disable_sanitization {
            markdown_html_of(input@, spec_option_bits(*opts))
        } else {
            sanitized_html_of(markdown_html_of(input@, spec_option_bits(*opts)))
        },
{
    let bits = option_bits(opts);
    let html = render_html(input, bits);
    if opts.disable_sanitization {
        html
    } else {
        sanitize_html(html.as_str())
    }
}

/// The first MIME type that `mime_guess` lists for a file extension.
pub uninterp spec fn mime_of_ext(ext: Seq<char>) -> Option<Seq<char>>;

/// `MimeGuess::from_ext(..).first()` of `mime_guess`, as its essence text: the
/// first MIME type its table lists for the extension, named; none when it
/// lists none.
#[verifier::external_body]
fn guess_mime(ext: &str) -> (res: Option<String>)
    ensures
        match mime_of_ext(ext@) {
            Some(m) => res matches Some(s) && s@ == m,
            None => res is None,
        },
{
    mime_guess::MimeGuess::from_ext(ext).first().map(|m| m.essence_str().to_string())
}

/// Guesses the MIME type of a file by its extension.
pub fn mime_guess_by_ext(ext: &str) -> (res: Option<String>)
    ensures
        match mime_of_ext(ext@) {
            Some(m) => res matches Some(s) && s@ == m,
            None => res is None,
        },
{
    guess_mime(ext)
}

} // verus!
