//! Rendering articles for the device.

use vstd::prelude::*;
use vstd::string::*;
use vstd::utf8::encode_utf8;

use crate::readlater::{prefixed, Article, ArticleContent, ArticleFormat, ReadLaterError};
use crate::text::{to_chars, trim_start};

verus! {

/// A character as it stands in HTML text and quoted attribute values.
pub open spec fn html_char(c: char) -> Seq<char> {
    if c == '&' {
        "&amp;"@
    } else if c == '<' {
        "&lt;"@
    } else if c == '>' {
        "&gt;"@
    } else if c == '"' {
        "&quot;"@
    } else if c == '\'' {
        "&#39;"@
    } else {
        seq![c]
    }
}

/// A text as it stands in HTML text and quoted attribute values.
pub open spec fn html_text(s: Seq<char>) -> Seq<char>
    decreases s.len(),
{
    if s.len() == 0 {
        Seq::empty()
    } else {
        html_text(s.drop_last()) + html_char(s.last())
    }
}

/// Escape text for HTML/XHTML element content and quoted attribute values.
pub fn escape_html(s: &str) -> (r: String)
    ensures
        r@ == html_text(s@),
{
    let cs = to_chars(s);
    let mut out = String::new();
    let mut i: usize = 0;
    assert(out@ =~= html_text(s@.take(0)));
    while i < cs.len()
        invariant
            i <= cs@.len(),
            cs@ == s@,
            out@ == html_text(s@.take(i as int)),
        decreases cs@.len() - i,
    {
        let c = cs[i];
        let ghost was = out@;
        assert(s@.take(i as int + 1).drop_last() =~= s@.take(i as int));
        if c == '&' {
            out.push_str("&amp;");
        } else if c == '<' {
            out.push_str("&lt;");
        } else if c == '>' {
            out.push_str("&gt;");
        } else if c == '"' {
            out.push_str("&quot;");
        } else if c == '\'' {
            out.push_str("&#39;");
        } else {
            out.push(c);
        }
        assert(out@ =~= was + html_char(c));
        i += 1;
    }
    assert(s@.take(i as int) =~= s@);
    out
}

/// Whatever a text is, its escaped form holds no angle bracket and no quote: it can neither open or
/// close an element nor end the attribute value that it stands in.
pub proof fn law_escaped_text_is_inert(s: Seq<char>)
    ensures
        forall|i: int|
            0 <= i < html_text(s).len() ==> {
                let c = #[trigger] html_text(s)[i];
                c != '<' && c != '>' && c != '"' && c != '\''
            },
    decreases s.len(),
{
    if s.len() > 0 {
        let rest = s.drop_last();
        law_escaped_text_is_inert(rest);
        reveal_strlit("&amp;");
        reveal_strlit("&lt;");
        reveal_strlit("&gt;");
        reveal_strlit("&quot;");
        reveal_strlit("&#39;");
        let a = html_text(rest);
        let b = html_char(s.last());
        let whole = a + b;
        assert forall|i: int| 0 <= i < whole.len() implies {
            let c = #[trigger] whole[i];
            c != '<' && c != '>' && c != '"' && c != '\''
        } by {
            if i < a.len() {
                assert(whole[i] == a[i]);
            } else {
                assert(whole[i] == b[i - a.len()]);
            }
        }
    }
}

/// Whether a text begins with `prefix`, which is in lower case, in whatever case.
pub open spec fn begins_with(s: Seq<char>, prefix: Seq<char>) -> bool {
    prefix.len() <= s.len() && s.take(prefix.len() as int).map_values(
        |c: char| crate::text::ascii_lower(c),
    ) == prefix
}

fn lower(c: char) -> (r: char)
    ensures
        r == crate::text::ascii_lower(c),
{
    if 'A' <= c && c <= 'Z' {
        ((c as u8) + 32) as char
    } else {
        c
    }
}

fn begins(s: &str, prefix: &str) -> (r: bool)
    ensures
        r == begins_with(s@, prefix@),
{
    let cs = to_chars(s);
    let ps = to_chars(prefix);
    if ps.len() > cs.len() {
        return false;
    }
    let ghost start = s@.take(prefix@.len() as int).map_values(
        |c: char| crate::text::ascii_lower(c),
    );
    let mut i: usize = 0;
    while i < ps.len()
        invariant
            i <= ps@.len() <= cs@.len(),
            cs@ == s@,
            ps@ == prefix@,
            start == s@.take(prefix@.len() as int).map_values(
                |c: char| crate::text::ascii_lower(c),
            ),
            forall|k: int| 0 <= k < i ==> start[k] == ps@[k],
        decreases ps@.len() - i,
    {
        assert(start[i as int] == crate::text::ascii_lower(cs@[i as int]));
        if lower(cs[i]) != ps[i] {
            return false;
        }
        i += 1;
    }
    assert(start =~= prefix@);
    true
}

/// A link that may be followed: one of http(s), and else none.
pub open spec fn followable(url: Seq<char>) -> Seq<char> {
    let u = crate::text::trimmed_start(url);
    if begins_with(u, "http://"@) || begins_with(u, "https://"@) {
        u
    } else {
        "#"@
    }
}

/// Only allow http(s) links in generated `href`s; anything else (e.g. `javascript:`) becomes `#`.
/// The result still needs `escape_html` for the attribute context.
pub fn safe_href(url: &str) -> (r: String)
    ensures
        r@ == followable(url@),
{
    let u = trim_start(url);
    if begins(u, "http://") || begins(u, "https://") {
        u.to_owned()
    } else {
        "#".to_owned()
    }
}

/// An article rendered for the device.
#[derive(Debug, Clone)]
pub struct RenderedArticle {
    /// File extension, which is also the reMarkable `fileType`: `epub`, `pdf` or `html`.
    pub ext: &'static str,
    pub bytes: Vec<u8>,
}

/// Renders articles into the format an account delivers.
#[derive(Debug)]
pub struct ArticleConverter;

pub const HTML_START: &'static str = "<!DOCTYPE html>\n<html>\n<head>\n    <meta charset=\"utf-8\">\n    <title>";

pub const HTML_STYLE: &'static str = "</title>\n    <style>\n        body { font-family: Georgia, serif; max-width: 800px; margin: 0 auto; padding: 20px; line-height: 1.6; }\n        h1 { font-size: 2em; margin-bottom: 0.5em; }\n        .meta { color: #666; margin-bottom: 2em; }\n        img { max-width: 100%; height: auto; }\n    </style>\n    ";

pub const HTML_BODY: &'static str = "\n</head>\n<body>\n    <h1>";

pub const HTML_META: &'static str = "</h1>\n    <div class=\"meta\">\n        ";

pub const HTML_LINK: &'static str = "\n        <a href=\"";

pub const HTML_CONTENT: &'static str = "\">Original</a>\n    </div>\n    ";

pub const HTML_END: &'static str = "\n</body>\n</html>";

pub const XHTML_START: &'static str = "<?xml version=\"1.0\" encoding=\"UTF-8\"?>\n<!DOCTYPE html>\n<html xmlns=\"http://www.w3.org/1999/xhtml\">\n<head>\n<title>";

pub const XHTML_STYLE: &'static str = "</title>\n<style>\nbody { font-family: Georgia, serif; line-height: 1.6; margin: 1em; }\nh1 { font-size: 1.5em; }\nimg { max-width: 100%; }\n</style>\n</head>\n<body>\n<h1>";

pub const XHTML_AUTHOR: &'static str = "</h1>\n<p><em>By ";

pub const XHTML_LINK: &'static str = "</em></p>\n<p><a href=\"";

pub const XHTML_CONTENT: &'static str = "\">Original article</a></p>\n<hr/>\n";

/// The line that names an author.
pub open spec fn byline(author: Option<Seq<char>>) -> Seq<char> {
    match author {
        Some(a) => "By "@ + html_text(a) + " • "@,
        None => Seq::empty(),
    }
}

/// An article as an HTML document.
pub open spec fn html_of(
    a: crate::readlater::ArticleView,
    html: Seq<char>,
    styles: Option<Seq<char>>,
) -> Seq<char> {
    HTML_START@ + html_text(a.title) + HTML_STYLE@ + (match styles {
        Some(s) => s,
        None => Seq::empty(),
    }) + HTML_BODY@ + html_text(a.title) + HTML_META@ + byline(a.author) + HTML_LINK@ + html_text(
        followable(a.url),
    ) + HTML_CONTENT@ + html + HTML_END@
}

/// An article as the XHTML document of an EPUB.
pub open spec fn xhtml_of(a: crate::readlater::ArticleView, html: Seq<char>) -> Seq<char> {
    XHTML_START@ + html_text(a.title) + XHTML_STYLE@ + html_text(a.title) + XHTML_AUTHOR@
        + html_text(
        match a.author {
            Some(s) => s,
            None => "Unknown"@,
        },
    ) + XHTML_LINK@ + html_text(followable(a.url)) + XHTML_CONTENT@ + html + HTML_END@
}

/// The errors of the `epub_builder` crate.
#[verifier::external_type_specification]
#[verifier::external_body]
pub struct ExEpubError(epub_builder::Error);

/// The `Display` of `epub_builder::Error`: what went wrong, in its own words, of which nothing is
/// known.
#[verifier::external_body]
fn epub_error_text(e: &epub_builder::Error) -> (r: String) {
    e.to_string()
}

/// Whether an archive is one that `epub_builder::EpubBuilder` makes of that title, author (none where
/// it is empty) and generator, and of one content document under a name. There are many, since the
/// time and a random identifier go into each.
pub uninterp spec fn epub_made_of(
    archive: Seq<u8>,
    title: Seq<char>,
    author: Seq<char>,
    generator: Seq<char>,
    file: Seq<char>,
    xhtml: Seq<char>,
) -> bool;

/// `epub_builder::EpubBuilder` with `epub_builder::ZipLibrary`: an EPUB with that title, author (none
/// where it is empty) and generator, and one content document, `xhtml`, under the name `file`. The
/// archive begins with the entry that tells its type, uncompressed, as EPUB asks. The rest of its
/// bytes depends on the time and on a random identifier, and is left open, as is when the builder
/// fails.
#[verifier::external_body]
fn build_epub(title: &str, author: &str, generator: &str, file: &str, xhtml: &str) -> (r: Result<
    Vec<u8>,
    epub_builder::Error,
>)
    ensures
        r matches Ok(b) ==> epub_made_of(b@, title@, author@, generator@, file@, xhtml@),
        r matches Ok(b) ==> b@.len() >= 58 && b@.subrange(38, 58) == encode_utf8(
            "application/epub+zip"@,
        ),
{
    let mut builder = epub_builder::EpubBuilder::new(epub_builder::ZipLibrary::new()?)?;
    builder.metadata("title", title)?.metadata("author", author)?.metadata("generator", generator)?;
    builder.add_content(epub_builder::EpubContent::new(file, xhtml.as_bytes()).title(title))?;
    let mut out = Vec::new();
    builder.generate(&mut out)?;
    Ok(out)
}

/// Whether an archive is an article's EPUB.
pub open spec fn is_epub_of(
    archive: Seq<u8>,
    article: crate::readlater::ArticleView,
    html: Seq<char>,
) -> bool {
    &&& archive.len() >= 58
    &&& archive.subrange(38, 58) == encode_utf8("application/epub+zip"@)
    &&& epub_made_of(
        archive,
        article.title,
        match article.author {
            Some(a) => a,
            None => Seq::empty(),
        },
        "remarkable-server"@,
        "content.xhtml"@,
        xhtml_of(article, html),
    )
}

/// Whether an error is that of an EPUB that could not be built, in the builder's words.
pub open spec fn is_epub_failure(e: crate::readlater::ReadLaterErrorView) -> bool {
    e matches crate::readlater::ReadLaterErrorView::Conversion(m) && "EPUB: "@.is_prefix_of(m)
}

impl ArticleConverter {
    /// Render an article. A PDF is printed from [`ArticleConverter::html_document`] by a program
    /// outside; `printed` is what came of that.
    pub fn render(
        article: &Article,
        content: &ArticleContent,
        format: ArticleFormat,
        printed: Option<Vec<u8>>,
    ) -> (r: Result<RenderedArticle, ReadLaterError>)
        ensures
            match format {
                ArticleFormat::Html => r matches Ok(a) && a.ext@ == "html"@ && a.bytes@
                    == encode_utf8(
                    html_of(article@, content.html@, crate::text::text_of(content.styles)),
                ),
                ArticleFormat::Epub => match r {
                    Ok(a) => a.ext@ == "epub"@ && is_epub_of(a.bytes@, article@, content.html@),
                    Err(e) => is_epub_failure(e@),
                },
                ArticleFormat::Pdf => match printed {
                    Some(b) => r matches Ok(a) && a.ext@ == "pdf"@ && a.bytes == b,
                    None => r matches Err(e) && e@
                        == crate::readlater::ReadLaterErrorView::Conversion(
                        "No PDF converter available (install weasyprint or wkhtmltopdf)"@,
                    ),
                },
            },
    {
        match format {
            ArticleFormat::Html => {
                let document = ArticleConverter::html_document(article, content);
                let mut bytes: Vec<u8> = Vec::new();
                bytes.extend_from_slice(document.as_str().as_bytes());
                assert(bytes@ =~= encode_utf8(document@));
                Ok(RenderedArticle { ext: "html", bytes })
            },
            ArticleFormat::Epub => match ArticleConverter::epub(article, content) {
                Ok(bytes) => Ok(RenderedArticle { ext: "epub", bytes }),
                Err(e) => Err(e),
            },
            ArticleFormat::Pdf => match printed {
                Some(bytes) => Ok(RenderedArticle { ext: "pdf", bytes }),
                None => Err(
                    ReadLaterError::Conversion(
                        "No PDF converter available (install weasyprint or wkhtmltopdf)".to_owned(),
                    ),
                ),
            },
        }
    }

    /// The article as an HTML document.
    pub fn html_document(article: &Article, content: &ArticleContent) -> (r: String)
        ensures
            r@ == html_of(article@, content.html@, crate::text::text_of(content.styles)),
            exists|head: Seq<char>|
                {
                    &&& r@ == #[trigger] (head + content.html@) + HTML_END@
                    &&& crate::text::holds(head, html_text(article.title@))
                    &&& article.author matches Some(a) ==> crate::text::holds(head, html_text(a@))
                    &&& content.styles matches Some(s) ==> crate::text::holds(head, s@)
                    &&& crate::text::holds(head, html_text(followable(article.url@)))
                },
    {
        proof {
            law_an_html_document_holds_the_article(
                article@,
                content.html@,
                crate::text::text_of(content.styles),
            );
        }
        let title = escape_html(article.title.as_str());
        let link = escape_html(safe_href(article.url.as_str()).as_str());
        let mut by = String::new();
        if let Some(a) = &article.author {
            by.push_str("By ");
            by.push_str(escape_html(a.as_str()).as_str());
            by.push_str(" • ");
        }
        assert(by@ =~= byline(crate::text::text_of(article.author)));
        let mut styles = String::new();
        if let Some(s) = &content.styles {
            styles.push_str(s.as_str());
        }
        let ghost wanted = match crate::text::text_of(content.styles) {
            Some(s) => s,
            None => Seq::empty(),
        };
        assert(styles@ =~= wanted);
        let mut out = HTML_START.to_owned();
        out.push_str(title.as_str());
        out.push_str(HTML_STYLE);
        out.push_str(styles.as_str());
        out.push_str(HTML_BODY);
        out.push_str(title.as_str());
        out.push_str(HTML_META);
        out.push_str(by.as_str());
        out.push_str(HTML_LINK);
        out.push_str(link.as_str());
        out.push_str(HTML_CONTENT);
        out.push_str(content.html.as_str());
        out.push_str(HTML_END);
        out
    }

    /// Build the EPUB in memory.
    pub fn epub(article: &Article, content: &ArticleContent) -> (r: Result<Vec<u8>, ReadLaterError>)
        ensures
            match r {
                Ok(b) => is_epub_of(b@, article@, content.html@),
                Err(e) => is_epub_failure(e@),
            },
    {
        let xhtml = ArticleConverter::epub_content_xhtml(article, content);
        let author = match &article.author {
            Some(a) => a.as_str(),
            None => "",
        };
        proof {
            reveal_strlit("");
            assert(""@ =~= Seq::empty());
        }
        let built = build_epub(
            article.title.as_str(),
            author,
            "remarkable-server",
            "content.xhtml",
            xhtml.as_str(),
        );
        match built {
            Ok(b) => ArticleConverter::epub_outcome(Ok(b)),
            Err(e) => {
                let text = epub_error_text(&e);
                assert("EPUB: "@.is_prefix_of("EPUB: "@ + text@));
                ArticleConverter::epub_outcome(Err(text))
            },
        }
    }

    /// What building an EPUB came to.
    pub fn epub_outcome(built: Result<Vec<u8>, String>) -> (r: Result<Vec<u8>, ReadLaterError>)
        ensures
            match built {
                Ok(b) => r == Ok::<Vec<u8>, ReadLaterError>(b),
                Err(text) => r matches Err(e) && e@
                    == crate::readlater::ReadLaterErrorView::Conversion("EPUB: "@ + text@),
            },
    {
        match built {
            Ok(b) => Ok(b),
            Err(text) => Err(ReadLaterError::Conversion(prefixed("EPUB: ", text.as_str()))),
        }
    }

    /// The content document of the EPUB.
    pub fn epub_content_xhtml(article: &Article, content: &ArticleContent) -> (r: String)
        ensures
            r@ == xhtml_of(article@, content.html@),
            exists|head: Seq<char>|
                {
                    &&& r@ == #[trigger] (head + content.html@) + HTML_END@
                    &&& crate::text::holds(head, html_text(article.title@))
                    &&& crate::text::holds(
                        head,
                        html_text(
                            match article.author {
                                Some(a) => a@,
                                None => "Unknown"@,
                            },
                        ),
                    )
                    &&& crate::text::holds(head, html_text(followable(article.url@)))
                },
    {
        proof {
            law_an_epub_holds_the_article(article@, content.html@);
        }
        let title = escape_html(article.title.as_str());
        let author = escape_html(
            match &article.author {
                Some(a) => a.as_str(),
                None => "Unknown",
            },
        );
        let mut out = XHTML_START.to_owned();
        out.push_str(title.as_str());
        out.push_str(XHTML_STYLE);
        out.push_str(title.as_str());
        out.push_str(XHTML_AUTHOR);
        out.push_str(author.as_str());
        out.push_str(XHTML_LINK);
        out.push_str(escape_html(safe_href(article.url.as_str()).as_str()).as_str());
        out.push_str(XHTML_CONTENT);
        out.push_str(content.html.as_str());
        out.push_str(HTML_END);
        out
    }
}

/// A text holds what stands in it.
proof fn lemma_holds(before: Seq<char>, part: Seq<char>, after: Seq<char>)
    ensures
        crate::text::holds(before + part + after, part),
{
    let s = before + part + after;
    let i = before.len() as int;
    assert(s.subrange(i, i + part.len()) =~= part);
}

/// What a text holds, a longer text that begins with it holds.
proof fn lemma_still_holds(s: Seq<char>, part: Seq<char>, after: Seq<char>)
    requires
        crate::text::holds(s, part),
    ensures
        crate::text::holds(s + after, part),
{
    let i = choose|i: int|
        0 <= i <= s.len() - part.len() && #[trigger] s.subrange(i, i + part.len()) == part;
    assert((s + after).subrange(i, i + part.len()) =~= s.subrange(i, i + part.len()));
}

/// A part between two others is held together with the end of the one and the start of the other.
proof fn lemma_holds_between(
    before: Seq<char>,
    opening: Seq<char>,
    part: Seq<char>,
    closing: Seq<char>,
    open: Seq<char>,
    close: Seq<char>,
)
    requires
        exists|s: Seq<char>| opening == #[trigger] (s + open),
        exists|s: Seq<char>| closing == #[trigger] (close + s),
    ensures
        crate::text::holds(before + opening + part + closing, open + part + close),
        crate::text::holds(before + opening + part + closing, part),
{
    let s = choose|s: Seq<char>| opening == #[trigger] (s + open);
    let t = choose|s: Seq<char>| closing == #[trigger] (close + s);
    let whole = before + opening + part + closing;
    let i = before.len() + s.len() as int;
    let inner = open + part + close;
    assert(whole.subrange(i, i + inner.len()) =~= inner);
    let j = before.len() + opening.len() as int;
    assert(whole.subrange(j, j + part.len()) =~= part);
}

/// The content document of an EPUB is a head, the article's content as it is, and the end of the
/// document. The head holds the title, escaped, as the document's title and as its heading; the
/// author, escaped, or that the author is unknown; and the link to the original, escaped, if it is
/// one that may be followed.
pub proof fn law_an_epub_holds_the_article(a: crate::readlater::ArticleView, html: Seq<char>)
    ensures
        exists|head: Seq<char>|
            {
                &&& xhtml_of(a, html) == #[trigger] (head + html) + HTML_END@
                &&& crate::text::holds(head, "<title>"@ + html_text(a.title) + "</title>"@)
                &&& crate::text::holds(head, "<h1>"@ + html_text(a.title) + "</h1>"@)
                &&& a.author matches Some(author) ==> crate::text::holds(
                    head,
                    "<em>By "@ + html_text(author) + "</em>"@,
                )
                &&& a.author is None ==> crate::text::holds(
                    head,
                    "<em>By "@ + html_text("Unknown"@) + "</em>"@,
                )
                &&& crate::text::holds(
                    head,
                    "<a href=\""@ + html_text(followable(a.url)) + "\">"@,
                )
                &&& crate::text::holds(head, html_text(a.title))
                &&& crate::text::holds(
                    head,
                    html_text(
                        match a.author {
                            Some(s) => s,
                            None => "Unknown"@,
                        },
                    ),
                )
                &&& crate::text::holds(head, html_text(followable(a.url)))
            },
{
    let title = html_text(a.title);
    let author = html_text(
        match a.author {
            Some(s) => s,
            None => "Unknown"@,
        },
    );
    let link = html_text(followable(a.url));
    lemma_xhtml_pieces();
    let none = Seq::<char>::empty();
    let p1 = XHTML_START@ + title + XHTML_STYLE@;
    let p2 = p1 + title + XHTML_AUTHOR@;
    let p3 = p2 + author + XHTML_LINK@;
    let head = p3 + link + XHTML_CONTENT@;
    assert(xhtml_of(a, html) == (head + html) + HTML_END@);
    let titled = "<title>"@ + title + "</title>"@;
    let headed = "<h1>"@ + title + "</h1>"@;
    let written = "<em>By "@ + author + "</em>"@;
    let linked = "<a href=\""@ + link + "\">"@;
    lemma_holds_between(none, XHTML_START@, title, XHTML_STYLE@, "<title>"@, "</title>"@);
    assert(none + XHTML_START@ =~= XHTML_START@);
    lemma_carried(p1, titled, title, XHTML_AUTHOR@);
    lemma_carried(p2, titled, author, XHTML_LINK@);
    lemma_carried(p3, titled, link, XHTML_CONTENT@);
    let b1 = XHTML_START@ + title;
    lemma_holds_between(b1, XHTML_STYLE@, title, XHTML_AUTHOR@, "<h1>"@, "</h1>"@);
    lemma_carried(p2, headed, author, XHTML_LINK@);
    lemma_carried(p2, title, author, XHTML_LINK@);
    lemma_carried(p3, headed, link, XHTML_CONTENT@);
    lemma_carried(p3, title, link, XHTML_CONTENT@);
    let b2 = p1 + title;
    lemma_holds_between(b2, XHTML_AUTHOR@, author, XHTML_LINK@, "<em>By "@, "</em>"@);
    lemma_carried(p3, written, link, XHTML_CONTENT@);
    lemma_carried(p3, author, link, XHTML_CONTENT@);
    let b3 = p2 + author;
    lemma_holds_between(b3, XHTML_LINK@, link, XHTML_CONTENT@, "<a href=\""@, "\">"@);
}

proof fn lemma_carried(s: Seq<char>, part: Seq<char>, next: Seq<char>, last: Seq<char>)
    requires
        crate::text::holds(s, part),
    ensures
        crate::text::holds(s + next + last, part),
{
    lemma_still_holds(s, part, next);
    lemma_still_holds(s + next, part, last);
}

/// Where the marks of an EPUB's content document open and close.
proof fn lemma_xhtml_pieces()
    ensures
        exists|s: Seq<char>| XHTML_START@ == #[trigger] (s + "<title>"@),
        exists|s: Seq<char>| XHTML_STYLE@ == #[trigger] ("</title>"@ + s),
        exists|s: Seq<char>| XHTML_STYLE@ == #[trigger] (s + "<h1>"@),
        exists|s: Seq<char>| XHTML_AUTHOR@ == #[trigger] ("</h1>"@ + s),
        exists|s: Seq<char>| XHTML_AUTHOR@ == #[trigger] (s + "<em>By "@),
        exists|s: Seq<char>| XHTML_LINK@ == #[trigger] ("</em>"@ + s),
        exists|s: Seq<char>| XHTML_LINK@ == #[trigger] (s + "<a href=\""@),
        exists|s: Seq<char>| XHTML_CONTENT@ == #[trigger] ("\">"@ + s),
{
    reveal_strlit("<title>");
    reveal_strlit("</title>");
    reveal_strlit("<h1>");
    reveal_strlit("</h1>");
    reveal_strlit("<em>By ");
    reveal_strlit("</em>");
    reveal_strlit("<a href=\"");
    reveal_strlit("\">");
    reveal_strlit("<?xml version=\"1.0\" encoding=\"UTF-8\"?>\n<!DOCTYPE html>\n<html xmlns=\"http://www.w3.org/1999/xhtml\">\n<head>\n<title>");
    reveal_strlit("</title>\n<style>\nbody { font-family: Georgia, serif; line-height: 1.6; margin: 1em; }\nh1 { font-size: 1.5em; }\nimg { max-width: 100%; }\n</style>\n</head>\n<body>\n<h1>");
    reveal_strlit("</h1>\n<p><em>By ");
    reveal_strlit("</em></p>\n<p><a href=\"");
    reveal_strlit("\">Original article</a></p>\n<hr/>\n");
    let n0 = XHTML_START@.len() - 7;
    assert(XHTML_START@ =~= XHTML_START@.take(n0) + "<title>"@);
    assert(XHTML_STYLE@ =~= "</title>"@ + XHTML_STYLE@.skip(8));
    let n1 = XHTML_STYLE@.len() - 4;
    assert(XHTML_STYLE@ =~= XHTML_STYLE@.take(n1) + "<h1>"@);
    assert(XHTML_AUTHOR@ =~= "</h1>"@ + XHTML_AUTHOR@.skip(5));
    let n2 = XHTML_AUTHOR@.len() - 7;
    assert(XHTML_AUTHOR@ =~= XHTML_AUTHOR@.take(n2) + "<em>By "@);
    assert(XHTML_LINK@ =~= "</em>"@ + XHTML_LINK@.skip(5));
    let n3 = XHTML_LINK@.len() - 9;
    assert(XHTML_LINK@ =~= XHTML_LINK@.take(n3) + "<a href=\""@);
    assert(XHTML_CONTENT@ =~= "\">"@ + XHTML_CONTENT@.skip(2));
}

/// An HTML document is a head, the article's content as it is, and the end of the document. The
/// head holds the title and the link to the original, escaped, the author where there is one, and
/// the article's own styles.
pub proof fn law_an_html_document_holds_the_article(
    a: crate::readlater::ArticleView,
    html: Seq<char>,
    styles: Option<Seq<char>>,
)
    ensures
        exists|head: Seq<char>|
            {
                &&& html_of(a, html, styles) == #[trigger] (head + html) + HTML_END@
                &&& crate::text::holds(head, html_text(a.title))
                &&& a.author matches Some(author) ==> crate::text::holds(
                    head,
                    "By "@ + html_text(author),
                ) && crate::text::holds(head, html_text(author))
                &&& styles matches Some(s) ==> crate::text::holds(head, s)
                &&& crate::text::holds(head, html_text(followable(a.url)))
            },
{
    let title = html_text(a.title);
    let link = html_text(followable(a.url));
    let own = match styles {
        Some(s) => s,
        None => Seq::empty(),
    };
    let by = byline(a.author);
    let p1 = HTML_START@ + title + HTML_STYLE@;
    let p2 = p1 + own + HTML_BODY@;
    let p3 = p2 + title + HTML_META@;
    let p4 = p3 + by + HTML_LINK@;
    let head = p4 + link + HTML_CONTENT@;
    assert(html_of(a, html, styles) == (head + html) + HTML_END@);
    lemma_holds(HTML_START@, title, HTML_STYLE@);
    lemma_carried(p1, title, own, HTML_BODY@);
    lemma_carried(p2, title, title, HTML_META@);
    lemma_carried(p3, title, by, HTML_LINK@);
    lemma_carried(p4, title, link, HTML_CONTENT@);
    lemma_holds(p1, own, HTML_BODY@);
    lemma_carried(p2, own, title, HTML_META@);
    lemma_carried(p3, own, by, HTML_LINK@);
    lemma_carried(p4, own, link, HTML_CONTENT@);
    if let Some(name) = a.author {
        let author = html_text(name);
        let told = "By "@ + author;
        assert(told + " • "@ =~= by);
        assert(p3 + by =~= p3 + told + " • "@);
        lemma_holds(p3, told, " • "@);
        lemma_carried(p3 + by, told, HTML_LINK@, link);
        lemma_still_holds(p4 + link, told, HTML_CONTENT@);
        assert(p3 + by =~= (p3 + "By "@) + author + " • "@);
        lemma_holds(p3 + "By "@, author, " • "@);
        lemma_carried(p3 + by, author, HTML_LINK@, link);
        lemma_still_holds(p4 + link, author, HTML_CONTENT@);
    }
    lemma_holds(p4, link, HTML_CONTENT@);
}

/// Escaping goes character by character: the five that mean something in HTML are named, and every
/// other one stays.
pub proof fn law_escaping_goes_by_character(a: Seq<char>, b: Seq<char>, c: char)
    ensures
        html_text(a + b) == html_text(a) + html_text(b),
        html_text(seq!['&']) == "&amp;"@,
        html_text(seq!['<']) == "&lt;"@,
        html_text(seq!['>']) == "&gt;"@,
        html_text(seq!['"']) == "&quot;"@,
        html_text(seq!['\'']) == "&#39;"@,
        c != '&' && c != '<' && c != '>' && c != '"' && c != '\'' ==> html_text(seq![c])
            == seq![c],
    decreases b.len(),
{
    lemma_html_text_of_one('&');
    lemma_html_text_of_one('<');
    lemma_html_text_of_one('>');
    lemma_html_text_of_one('"');
    lemma_html_text_of_one('\'');
    lemma_html_text_of_one(c);
    if b.len() == 0 {
        assert(a + b =~= a);
        assert(html_text(a + b) =~= html_text(a) + html_text(b));
    } else {
        assert((a + b).drop_last() =~= a + b.drop_last());
        law_escaping_goes_by_character(a, b.drop_last(), c);
        assert(html_text(a + b) =~= html_text(a) + html_text(b));
    }
}

proof fn lemma_html_text_of_one(c: char)
    ensures
        html_text(seq![c]) == html_char(c),
{
    assert(seq![c].drop_last() =~= Seq::empty());
    assert(html_text(Seq::<char>::empty()) =~= Seq::<char>::empty());
    assert(html_text(seq![c]) =~= html_char(c));
}

/// A link is followed as it is where it is one of http(s), in any case and with white space before
/// it left out, and nowhere else.
pub proof fn law_only_web_links_are_followed(url: Seq<char>)
    ensures
        "http://"@.is_prefix_of(url) || "https://"@.is_prefix_of(url) || "HTTP://"@.is_prefix_of(url)
            || "HTTPS://"@.is_prefix_of(url) ==> followable(url) == url,
        followable(url) != "#"@ ==> {
            &&& followable(url).is_suffix_of(url)
            &&& followable(url).len() >= 7
            &&& followable(url)[0] == 'h' || followable(url)[0] == 'H'
            &&& followable(url)[1] == 't' || followable(url)[1] == 'T'
            &&& followable(url)[2] == 't' || followable(url)[2] == 'T'
            &&& followable(url)[3] == 'p' || followable(url)[3] == 'P'
        },
{
    reveal_strlit("http://");
    reveal_strlit("https://");
    reveal_strlit("HTTP://");
    reveal_strlit("HTTPS://");
    let u = crate::text::trimmed_start(url);
    crate::text::law_trimming(url);
    let n = choose|n: int|
        0 <= n <= url.len() && #[trigger] url.skip(n) == u && (forall|i: int|
            0 <= i < n ==> crate::text::is_space(#[trigger] url[i]));
    assert(u =~= url.subrange(url.len() - u.len(), url.len() as int));
    if "http://"@.is_prefix_of(url) || "https://"@.is_prefix_of(url) || "HTTP://"@.is_prefix_of(url)
        || "HTTPS://"@.is_prefix_of(url) {
        assert(url[0] == 'h' || url[0] == 'H') by {
            if "http://"@.is_prefix_of(url) {
                assert("http://"@[0] == url[0]);
            } else if "https://"@.is_prefix_of(url) {
                assert("https://"@[0] == url[0]);
            } else if "HTTP://"@.is_prefix_of(url) {
                assert("HTTP://"@[0] == url[0]);
            } else {
                assert("HTTPS://"@[0] == url[0]);
            }
        }
        assert(u == url);
        let seven = url.take(7).map_values(|c: char| crate::text::ascii_lower(c));
        if "http://"@.is_prefix_of(url) || "HTTP://"@.is_prefix_of(url) {
            assert(seven =~= "http://"@);
        } else {
            let eight = url.take(8).map_values(|c: char| crate::text::ascii_lower(c));
            assert(eight =~= "https://"@);
        }
    }
    if followable(url) != "#"@ {
        if begins_with(u, "http://"@) {
            let m = u.take(7).map_values(|c: char| crate::text::ascii_lower(c));
            assert(m == "http://"@);
            assert(m[0] == crate::text::ascii_lower(u[0]) && m[1] == crate::text::ascii_lower(u[1])
                && m[2] == crate::text::ascii_lower(u[2]) && m[3] == crate::text::ascii_lower(
                u[3],
            ));
        } else {
            let m = u.take(8).map_values(|c: char| crate::text::ascii_lower(c));
            assert(m == "https://"@);
            assert(m[0] == crate::text::ascii_lower(u[0]) && m[1] == crate::text::ascii_lower(u[1])
                && m[2] == crate::text::ascii_lower(u[2]) && m[3] == crate::text::ascii_lower(
                u[3],
            ));
        }
    }
}

/// The EPUB of an article is made of its title, its author and the document that holds its
/// content, and of nothing of another article.
pub proof fn law_an_epub_is_made_of_its_article(
    archive: Seq<u8>,
    a: crate::readlater::ArticleView,
    html: Seq<char>,
)
    requires
        is_epub_of(archive, a, html),
    ensures
        exists|author: Seq<char>, head: Seq<char>|
            {
                &&& #[trigger] epub_made_of(
                    archive,
                    a.title,
                    author,
                    "remarkable-server"@,
                    "content.xhtml"@,
                    (head + html) + HTML_END@,
                )
                &&& a.author matches Some(name) ==> author == name
                &&& a.author is None ==> author.len() == 0
                &&& crate::text::holds(head, "<h1>"@ + html_text(a.title) + "</h1>"@)
            },
{
    law_an_epub_holds_the_article(a, html);
    let head = choose|head: Seq<char>|
        xhtml_of(a, html) == #[trigger] (head + html) + HTML_END@ && crate::text::holds(
            head,
            "<h1>"@ + html_text(a.title) + "</h1>"@,
        );
    let author = match a.author {
        Some(name) => name,
        None => Seq::empty(),
    };
    assert(epub_made_of(
        archive,
        a.title,
        author,
        "remarkable-server"@,
        "content.xhtml"@,
        (head + html) + HTML_END@,
    ));
}

} // verus!
