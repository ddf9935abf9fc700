//! Putting a stylesheet into an XHTML document.
//!
//! The document is cut into tokens by `xmlparser` and written out again
//! token by token, with a `<style>` element put in just before the
//! closing tag of the head.

use crate::text::same_text;
use vstd::prelude::*;
use vstd::string::StringExecFns;

verus! {

/// A piece of an XML document, with the text it spans.
#[derive(Debug)]
pub enum XmlToken {
    /// An attribute inside a tag.
    Attribute(String),
    /// A closing tag `</name>`: the local name, then the whole tag.
    Close(String, String),
    /// Anything else.
    Other(String),
}

/// What an [`XmlToken`] holds, as character sequences.
pub enum XmlTokenView {
    Attribute(Seq<char>),
    Close(Seq<char>, Seq<char>),
    Other(Seq<char>),
}

impl View for XmlToken {
    type V = XmlTokenView;

    open spec fn view(&self) -> XmlTokenView {
        match self {
            XmlToken::Attribute(span) => XmlTokenView::Attribute(span@),
            XmlToken::Close(name, span) => XmlTokenView::Close(name@, span@),
            XmlToken::Other(span) => XmlTokenView::Other(span@),
        }
    }
}

impl DeepView for XmlToken {
    type V = XmlTokenView;

    open spec fn deep_view(&self) -> XmlTokenView {
        self@
    }
}

/// The tokens that `xmlparser::Tokenizer` cuts a document into, or `None`
/// for a document at which it reports an error.
pub uninterp spec fn xml_tokens(src: Seq<char>) -> Option<Seq<XmlTokenView>>;

/// Runs `xmlparser::Tokenizer` over `src` to its end. The tokenizer reads
/// nothing but the text it is given, so what it yields is named by
/// [`xml_tokens`]; each token is kept as its kind and the text it spans.
#[verifier::external_body]
fn tokenize(src: &str) -> (r: Option<Vec<XmlToken>>)
    ensures
        r.deep_view() == xml_tokens(src@),
{
    let mut out = Vec::new();
    for token in xmlparser::Tokenizer::from(src) {
        out.push(match token {
            Ok(xmlparser::Token::Attribute { span, .. }) => XmlToken::Attribute(span.as_str().to_string()),
            Ok(xmlparser::Token::ElementEnd { end: xmlparser::ElementEnd::Close(_, name), span }) =>
                XmlToken::Close(name.as_str().to_string(), span.as_str().to_string()),
            Ok(other) => XmlToken::Other(other.span().as_str().to_string()),
            Err(_) => return None,
        });
    }
    Some(out)
}

/// The `<style>` element that holds `stylesheet`, on lines of its own.
pub open spec fn style_element(stylesheet: Seq<char>) -> Seq<char> {
    "<style type=\"text/css\">"@ + seq!['\n'] + stylesheet + seq!['\n'] + "</style>"@ + seq![
        '\n',
    ]
}

/// The text that one token is written as: an attribute after a space, the
/// closing tag of the head after the style element, anything else as it
/// stands.
pub open spec fn written(token: XmlTokenView, stylesheet: Seq<char>) -> Seq<char> {
    match token {
        XmlTokenView::Attribute(span) => seq![' '] + span,
        XmlTokenView::Close(name, span) => if name == "head"@ {
            style_element(stylesheet) + span
        } else {
            span
        },
        XmlTokenView::Other(span) => span,
    }
}

/// The document that `tokens` are written as, one after the other.
pub open spec fn injected(tokens: Seq<XmlTokenView>, stylesheet: Seq<char>) -> Seq<char> {
    tokens.map_values(|t: XmlTokenView| written(t, stylesheet)).flatten()
}

/// [`injected`] with one more token at the end.
pub proof fn lemma_injected_push(tokens: Seq<XmlTokenView>, token: XmlTokenView, stylesheet: Seq<char>)
    ensures
        injected(tokens.push(token), stylesheet) == injected(tokens, stylesheet) + written(
            token,
            stylesheet,
        ),
{
    let f = |t: XmlTokenView| written(t, stylesheet);
    assert(tokens.push(token).map_values(f) =~= tokens.map_values(f).push(f(token)));
    tokens.map_values(f).lemma_flatten_push(f(token));
}

/// The document that `tokens` are written as, with `stylesheet` at the end
/// of its head. A document without a head comes out without the stylesheet.
pub fn inject_styles_into(tokens: &Vec<XmlToken>, stylesheet: &str) -> (output: String)
    ensures
        output@ == injected(tokens.deep_view(), stylesheet@),
{
    let mut output = String::new();
    let mut i: usize = 0;
    assert(tokens.deep_view().take(0) =~= Seq::<XmlTokenView>::empty());
    assert(injected(Seq::empty(), stylesheet@) =~= Seq::<char>::empty());
    while i < tokens.len()
        invariant
            i <= tokens.len(),
            output@ == injected(tokens.deep_view().take(i as int), stylesheet@),
        decreases tokens.len() - i,
    {
        let ghost before = output@;
        proof {
            lemma_injected_push(tokens.deep_view().take(i as int), tokens[i as int]@, stylesheet@);
            assert(tokens.deep_view().take(i as int).push(tokens[i as int]@)
                =~= tokens.deep_view().take(i + 1));
        }
        match &tokens[i] {
            XmlToken::Attribute(span) => {
                output.push(' ');
                output.append(span.as_str());
                assert(output@ =~= before + (seq![' '] + span@));
            },
            XmlToken::Close(name, span) => {
                if same_text(name.as_str(), "head") {
                    output.append("<style type=\"text/css\">");
                    output.push('\n');
                    output.append(stylesheet);
                    output.push('\n');
                    output.append("</style>");
                    output.push('\n');
                    output.append(span.as_str());
                    assert(output@ =~= before + (style_element(stylesheet@) + span@));
                } else {
                    output.append(span.as_str());
                }
            },
            XmlToken::Other(span) => {
                output.append(span.as_str());
            },
        }
        i += 1;
    }
    assert(tokens.deep_view().take(i as int) =~= tokens.deep_view());
    output
}

/// The document `src` with `stylesheet` at the end of its head, or `None`
/// where `src` is no XML document.
pub fn inject_styles(src: &str, stylesheet: &str) -> (output: Option<String>)
    ensures
        output.deep_view() == match xml_tokens(src@) {
            Some(tokens) => Some(injected(tokens, stylesheet@)),
            None => None,
        },
{
    match tokenize(src) {
        Some(tokens) => Some(inject_styles_into(&tokens, stylesheet)),
        None => None,
    }
}

} // verus!
