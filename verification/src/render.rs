//! HTML escaping, the self-contained page for a diagram, and the bridge to
//! the LaTeX typesetter.
use vstd::prelude::*;

use crate::ParseError;

verus! {

broadcast use vstd::std_specs::vec::group_vec_axioms, vstd::seq::group_seq_axioms;

/// How one character appears in escaped HTML text.
pub open spec fn esc_html_char(c: char) -> Seq<char> {
    if c == '&' {
        "&amp;"@
    } else if c == '<' {
        "&lt;"@
    } else if c == '>' {
        "&gt;"@
    } else if c == '"' {
        "&quot;"@
    } else if c == '\'' {
        "&#39;"@
    } else {
        seq![c]
    }
}

/// A text with its HTML special characters escaped.
pub open spec fn esc_html(s: Seq<char>) -> Seq<char>
    decreases s,
{
    if s.len() == 0 {
        Seq::empty()
    } else {
        esc_html(s.drop_last()) + esc_html_char(s.last())
    }
}

fn push_str_x(out: &mut Vec<char>, s: &str)
    ensures
        final(out)@ == old(out)@ + s@,
{
    let cs = crate::json::str_to_chars(s);
    let n = cs.len();
    let mut k: usize = 0;
    while k < n
        invariant
            k <= n,
            n == cs@.len(),
            cs@ == s@,
            out@ == old(out)@ + cs@.take(k as int),
        decreases n - k,
    {
        out.push(cs[k]);
        proof {
            assert(old(out)@ + cs@.take(k as int + 1) =~= (old(out)@ + cs@.take(k as int)).push(
                cs@[k as int],
            ));
        }
        k += 1;
    }
    proof {
        assert(cs@.take(n as int) =~= cs@);
    }
}

fn push_escaped(out: &mut Vec<char>, s: &str)
    ensures
        final(out)@ == old(out)@ + esc_html(s@),
{
    let cs = crate::json::str_to_chars(s);
    let n = cs.len();
    let mut k: usize = 0;
    proof {
        assert(esc_html(cs@.take(0)) =~= Seq::<char>::empty());
        assert(out@ =~= old(out)@ + esc_html(cs@.take(0)));
    }
    while k < n
        invariant
            k <= n,
            n == cs@.len(),
            cs@ == s@,
            out@ == old(out)@ + esc_html(cs@.take(k as int)),
        decreases n - k,
    {
        proof {
            assert(cs@.take(k as int + 1).drop_last() =~= cs@.take(k as int));
            assert(cs@.take(k as int + 1).last() == cs@[k as int]);
        }
        let c = cs[k];
        if c == '&' {
            push_str_x(out, "&amp;");
        } else if c == '<' {
            push_str_x(out, "&lt;");
        } else if c == '>' {
            push_str_x(out, "&gt;");
        } else if c == '"' {
            push_str_x(out, "&quot;");
        } else if c == '\'' {
            push_str_x(out, "&#39;");
        } else {
            out.push(c);
            proof {
                assert(out@ =~= old(out)@ + esc_html(cs@.take(k as int)) + esc_html_char(c));
            }
        }
        proof {
            assert(out@ =~= old(out)@ + esc_html(cs@.take(k as int + 1)));
        }
        k += 1;
    }
    proof {
        assert(cs@.take(n as int) =~= cs@);
    }
}

/// Escape HTML special characters in text content.
pub fn escape_html(text: &str) -> (r: String)
    ensures
        r@ == esc_html(text@),
{
    let mut out: Vec<char> = Vec::new();
    push_escaped(&mut out, text);
    crate::json::chars_to_string(&out)
}

/// Escape HTML special characters in an attribute value.
pub fn escape_html_attr(text: &str) -> (r: String)
    ensures
        r@ == esc_html(text@),
{
    let mut out: Vec<char> = Vec::new();
    push_escaped(&mut out, text);
    crate::json::chars_to_string(&out)
}

/// The standalone page that renders a diagram in a web view: the escaped
/// source in a `mermaid` container, the script loaded from its CDN, and
/// the two colors woven through the style blocks.
pub open spec fn mermaid_page(code: Seq<char>, tc: Seq<char>, bg: Seq<char>) -> Seq<char> {
    "<!DOCTYPE html>\n<html>\n<head>\n<meta charset=\"utf-8\">\n<meta name=\"viewport\" content=\"width=device-width, initial-scale=1.0\">\n<style>\n* { margin: 0; padding: 0; box-sizing: border-box; }\nbody { font-family: -apple-system, BlinkMacSystemFont, 'Segoe UI', Roboto, sans-serif; background: "@
        + esc_html(bg)
        + "; margin: 0; padding: 20px; display: flex; align-items: center; justify-content: center; min-height: 100vh; }\n.mermaid { color: "@
        + esc_html(tc)
        + "; }\n</style>\n</head>\n<body>\n<div class=\"mermaid\">\n"@ + esc_html(code)
        + "\n</div>\n<script src=\"https://cdn.jsdelivr.net/npm/mermaid@10.6.1/dist/mermaid.min.js\" onload=\"initMermaid()\"></script>\n<script>\nfunction initMermaid() {\nif (typeof mermaid !== 'undefined') {\nmermaid.initialize({ startOnLoad: true, theme: 'default', themeVariables: {\nprimaryColor: '"@
        + esc_html(tc) + "',\nprimaryTextColor: '"@ + esc_html(tc) + "',\nprimaryBorderColor: '"@
        + esc_html(tc) + "',\nlineColor: '"@ + esc_html(tc) + "',\nsecondaryColor: '"@ + esc_html(
        bg,
    ) + "',\ntertiaryColor: '"@ + esc_html(bg)
        + "'\n} });\n}\n}\nif (document.readyState === 'complete') { initMermaid(); } else { window.addEventListener('load', initMermaid); }\n</script>\n</body>\n</html>"@
}

/// Build the standalone web page that renders a diagram, with the given
/// text and background colors. Never fails.
pub fn mermaid_to_html(mermaid_code: &str, text_color: &str, background_color: &str) -> (r: Result<
    String,
    ParseError,
>)
    ensures
        r matches Ok(h) && h@ == mermaid_page(mermaid_code@, text_color@, background_color@),
{
    let mut out: Vec<char> = Vec::new();
    push_str_x(
        &mut out,
        "<!DOCTYPE html>\n<html>\n<head>\n<meta charset=\"utf-8\">\n<meta name=\"viewport\" content=\"width=device-width, initial-scale=1.0\">\n<style>\n* { margin: 0; padding: 0; box-sizing: border-box; }\nbody { font-family: -apple-system, BlinkMacSystemFont, 'Segoe UI', Roboto, sans-serif; background: ",
    );
    push_escaped(&mut out, background_color);
    push_str_x(
        &mut out,
        "; margin: 0; padding: 20px; display: flex; align-items: center; justify-content: center; min-height: 100vh; }\n.mermaid { color: ",
    );
    push_escaped(&mut out, text_color);
    push_str_x(&mut out, "; }\n</style>\n</head>\n<body>\n<div class=\"mermaid\">\n");
    push_escaped(&mut out, mermaid_code);
    push_str_x(
        &mut out,
        "\n</div>\n<script src=\"https://cdn.jsdelivr.net/npm/mermaid@10.6.1/dist/mermaid.min.js\" onload=\"initMermaid()\"></script>\n<script>\nfunction initMermaid() {\nif (typeof mermaid !== 'undefined') {\nmermaid.initialize({ startOnLoad: true, theme: 'default', themeVariables: {\nprimaryColor: '",
    );
    push_escaped(&mut out, text_color);
    push_str_x(&mut out, "',\nprimaryTextColor: '");
    push_escaped(&mut out, text_color);
    push_str_x(&mut out, "',\nprimaryBorderColor: '");
    push_escaped(&mut out, text_color);
    push_str_x(&mut out, "',\nlineColor: '");
    push_escaped(&mut out, text_color);
    push_str_x(&mut out, "',\nsecondaryColor: '");
    push_escaped(&mut out, background_color);
    push_str_x(&mut out, "',\ntertiaryColor: '");
    push_escaped(&mut out, background_color);
    push_str_x(
        &mut out,
        "'\n} });\n}\n}\nif (document.readyState === 'complete') { initMermaid(); } else { window.addEventListener('load', initMermaid); }\n</script>\n</body>\n</html>",
    );
    proof {
        assert(out@ =~= mermaid_page(mermaid_code@, text_color@, background_color@));
    }
    Ok(crate::json::chars_to_string(&out))
}

/// The HTML that the typesetter produces for a formula: a function of the
/// formula text and the display flag alone.
pub uninterp spec fn katex_html_of(formula: Seq<char>, display: bool) -> Seq<char>;

/// Relies on katex::render_with_opts with HTML output: the rendered HTML
/// depends on the formula and display mode alone; errors carry the
/// typesetter's message.
#[verifier::external_body]
fn katex_render(formula: &str, display: bool) -> (r: Result<String, String>)
    ensures
        r matches Ok(h) ==> h@ == katex_html_of(formula@, display),
{
    let opts = match katex::Opts::builder().display_mode(display).output_type(
        katex::OutputType::Html,
    ).build() {
        Ok(o) => o,
        Err(e) => {
            return Err(e.to_string());
        },
    };
    katex::render_with_opts(formula, &opts).map_err(|e| e.to_string())
}

/// Typeset a LaTeX formula as HTML. On success the result is the
/// typesetter's HTML for exactly this formula and mode; a typesetter
/// failure surfaces as a Markdown-side error carrying its message.
pub fn math_to_html(formula: &str, display: bool) -> (r: Result<String, ParseError>)
    ensures
        r matches Ok(h) ==> h@ == katex_html_of(formula@, display),
        r matches Err(e) ==> e is MarkdownError,
{
    match katex_render(formula, display) {
        Ok(h) => Ok(h),
        Err(e) => {
            let mut msg = String::from_str("KaTeX render error: ");
            msg.append(e.as_str());
            Err(ParseError::MarkdownError(msg))
        },
    }
}

} // verus!
