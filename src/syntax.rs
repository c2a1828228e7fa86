//! Source syntax on both sides of the helper: the captured code going in, and
//! the printed result coming back out, read with `syn`.

use vstd::prelude::*;
use quote::{ToTokens, TokenStreamExt};

verus! {

/// Whether the text is quoted: at least two characters, a double quote first
/// and last.
pub open spec fn quoted(s: Seq<char>) -> bool {
    s.len() >= 2 && s[0] == '"' && s.last() == '"'
}

/// Relies on `syn::Block::parse_within`, run by `syn::parse::Parser::parse_str`:
/// parses the text as statements; the statements are printed back as tokens, and
/// a failure as syn's message. What parses, and how tokens print, depend on
/// whether proc-macro2 runs inside the compiler, so nothing more is stated.
#[verifier::external_body]
fn parse_statements(s: &str) -> (r: Result<String, String>) {
    match syn::parse::Parser::parse_str(syn::Block::parse_within, s) {
        Ok(stmts) => {
            let mut tokens = proc_macro2::TokenStream::new();
            tokens.append_all(stmts);
            Ok(tokens.to_string())
        },
        Err(e) => Err(e.to_string()),
    }
}

/// Relies on `syn::parse_str::<syn::ItemFn>`: parses the text as a function item;
/// its attributes, visibility and signature, and its block, are printed back as
/// tokens, and a failure as syn's message. As for `parse_statements`, nothing
/// more is stated.
#[verifier::external_body]
fn parse_function(s: &str) -> (r: Result<(String, String), String>) {
    match syn::parse_str::<syn::ItemFn>(s) {
        Ok(f) => {
            let mut head = proc_macro2::TokenStream::new();
            head.append_all(&f.attrs);
            f.vis.to_tokens(&mut head);
            f.sig.to_tokens(&mut head);
            Ok((head.to_string(), f.block.to_token_stream().to_string()))
        },
        Err(e) => Err(e.to_string()),
    }
}

/// Relies on `syn::parse_str::<syn::Expr>`: whether the text parses as one
/// expression, which depends on the lexer proc-macro2 runs with.
#[verifier::external_body]
fn parses_as_expression(s: &str) -> (r: bool) {
    syn::parse_str::<syn::Expr>(s).is_ok()
}

/// Relies on `syn::LitStr::new`, printed through its tokens: the string literal
/// whose value is the text; either printer of proc-macro2 writes it between
/// double quotes.
#[verifier::external_body]
fn string_literal_tokens(s: &str) -> (r: String)
    ensures
        quoted(r@),
{
    syn::LitStr::new(s, proc_macro2::Span::call_site()).to_token_stream().to_string()
}

/// A captured block, as tokens, and for the declaration form the function's
/// attributes, visibility and signature that the result is put back under.
pub struct Captured {
    pub header: Option<String>,
    pub block: String,
}

impl View for Captured {
    type V = (Option<Seq<char>>, Seq<char>);

    open spec fn view(&self) -> (Option<Seq<char>>, Seq<char>) {
        (match self.header {
            Some(h) => Some(h@),
            None => None,
        }, self.block@)
    }
}

/// Returns the capture of the expression form from the parsed statements, as
/// printed tokens, or the parser's message.
pub fn captured_from_statements(parsed: Result<String, String>) -> (r: Result<Captured, String>)
    ensures
        parsed matches Ok(b) ==> r matches Ok(c) && c@ == (None::<Seq<char>>, b@),
        parsed matches Err(m) ==> r matches Err(rm) && rm@ == m@,
{
    match parsed {
        Ok(block) => Ok(Captured { header: None, block }),
        Err(e) => Err(e),
    }
}

/// Returns the capture of the declaration form from the parsed function's
/// printed header and body, or the parser's message.
pub fn captured_from_function(parsed: Result<(String, String), String>) -> (r: Result<Captured, String>)
    ensures
        parsed matches Ok(p) ==> r matches Ok(c) && c@ == (Some(p.0@), p.1@),
        parsed matches Err(m) ==> r matches Err(rm) && rm@ == m@,
{
    match parsed {
        Ok(parts) => Ok(Captured { header: Some(parts.0), block: parts.1 }),
        Err(e) => Err(e),
    }
}

/// Captures the input of the expression form: the statements of a block, as
/// printed tokens. Fails, with the parser's message, where the input is no
/// statement sequence.
pub fn capture_expression(input: &str) -> (r: Result<Captured, String>)
    ensures
        r matches Ok(c) ==> c.header is None,
{
    captured_from_statements(parse_statements(input))
}

/// Captures the input of the declaration form: a function, whose body is the
/// block and whose attributes, visibility and signature are kept. Fails, with the
/// parser's message, where the input is no function.
pub fn capture_declaration(input: &str) -> (r: Result<Captured, String>)
    ensures
        r matches Ok(c) ==> c.header is Some,
{
    captured_from_function(parse_function(input))
}

/// What replaces the captured block: the helper's output where it is an
/// expression, else a string literal holding that output.
pub enum Spliced {
    Expr(String),
    StrLit(String),
}

impl Spliced {
    /// Whether this is the output taken as an expression, and the text it holds.
    pub open spec fn parts(&self) -> (bool, Seq<char>) {
        match self {
            Spliced::Expr(t) => (true, t@),
            Spliced::StrLit(t) => (false, t@),
        }
    }

    /// Whether `s` can be the tokens that stand at the call site: the
    /// expression as printed, or a quoted string literal.
    pub open spec fn tokens_fit(&self, s: Seq<char>) -> bool {
        match self {
            Spliced::Expr(t) => s == t@,
            Spliced::StrLit(_) => quoted(s),
        }
    }

    /// Returns the tokens that stand at the call site: the expression as it was
    /// printed, or the string literal whose value is the whole output.
    pub fn tokens(&self) -> (r: String)
        ensures
            self.tokens_fit(r@),
    {
        match self {
            Spliced::Expr(t) => t.clone(),
            Spliced::StrLit(t) => string_literal_tokens(t.as_str()),
        }
    }
}

/// Returns the substitute for the output `out`, given whether it parses as an
/// expression: the expression itself, or else a string literal whose value is
/// exactly `out`.
pub fn choose_splice(out: String, is_expr: bool) -> (r: Spliced)
    ensures
        r.parts() == (is_expr, out@),
{
    if is_expr { Spliced::Expr(out) } else { Spliced::StrLit(out) }
}

/// Returns the substitute for the helper's output `out`: the output as an
/// expression where syn parses it as one; otherwise a string literal whose value
/// is the output, character for character.
pub fn splice(out: String) -> (r: Spliced)
    ensures
        r.parts().1 == out@,
{
    let is_expr = parses_as_expression(out.as_str());
    choose_splice(out, is_expr)
}

} // verus!
