//! A rich-text document core: two parsers (extended Markdown and Delta
//! operation snapshots) that build one unified document tree, a lossless
//! JSON codec for that tree, and a pure height estimator for virtualized
//! scrolling.
use vstd::prelude::*;

pub mod ast;
pub mod json;
pub mod jsonparse;
pub mod numstr;
pub mod codec;
pub mod ast_builder;
pub mod mathsplit;
pub mod delta_parser;
pub mod height;
pub mod cache;
pub mod markdown_parser;
pub mod render;
pub mod roundtrip;

verus! {

/// What can go wrong while parsing: a malformed top-level JSON envelope,
/// a Markdown-side failure, or a Delta-side structural failure.
#[derive(Debug)]
pub enum ParseError {
    JsonError(String),
    MarkdownError(String),
    DeltaError(String),
}

impl ParseError {
    /// A human-readable description of the error.
    pub fn message(&self) -> (r: String)
        ensures
            self matches ParseError::JsonError(m) ==> r@ == "JSON parse error: "@ + m@,
            self matches ParseError::MarkdownError(m) ==> r@ == "Markdown parse error: "@ + m@,
            self matches ParseError::DeltaError(m) ==> r@ == "Delta parse error: "@ + m@,
    {
        match self {
            ParseError::JsonError(m) => {
                let mut s = String::from_str("JSON parse error: ");
                s.append(m.as_str());
                s
            },
            ParseError::MarkdownError(m) => {
                let mut s = String::from_str("Markdown parse error: ");
                s.append(m.as_str());
                s
            },
            ParseError::DeltaError(m) => {
                let mut s = String::from_str("Delta parse error: ");
                s.append(m.as_str());
                s
            },
        }
    }
}

/// Parse extended Markdown text into a document tree.
pub fn parse_markdown(input: &str) -> (r: Result<ast::RootNode, ParseError>)
    ensures
        r matches Ok(root) && root@ == markdown_parser::md_result(
            markdown_parser::md_events_of(input@),
        ),
{
    let parser = markdown_parser::MarkdownParser::new();
    parser.parse(input)
}

/// Parse a Delta operation snapshot into a document tree.
pub fn parse_delta(input: &str) -> (r: Result<ast::RootNode, ParseError>)
    ensures
        ({
            let pj = jsonparse::sp_parse_json(input@);
            match r {
                Ok(root) => {
                    &&& pj matches Some(j)
                    &&& delta_parser::delta_ops_of(j) matches Some(ops)
                    &&& root@ == delta_parser::delta_result(ops)
                },
                Err(e) => {
                    &&& (pj matches Some(j) ==> delta_parser::delta_ops_of(j) is None)
                    &&& e is JsonError
                },
            }
        }),
{
    let parser = delta_parser::DeltaParser::new();
    parser.parse(input)
}

/// Serialize a document tree as its tagged JSON text. The encoding is
/// lossless end to end: parsing this text and decoding it yields the tree
/// back (`roundtrip::lemma_serialization_lossless`).
pub fn serialize_ast(ast: &ast::RootNode) -> (r: Result<String, ParseError>)
    ensures
        r matches Ok(s) && s@ == json::print_json(codec::enc_root_doc(ast@)),
{
    let j = codec::root_to_json(ast);
    Ok(json::json_print(&j))
}

/// Parse a tagged JSON text back into a document tree. Succeeds exactly
/// when the text is valid JSON whose document decodes.
pub fn deserialize_ast(input: &str) -> (r: Result<ast::RootNode, ParseError>)
    ensures
        ({
            let pj = jsonparse::sp_parse_json(input@);
            match r {
                Ok(root) => pj matches Some(j) && codec::dec_root_doc(j) == Some(root@),
                Err(e) => {
                    &&& (pj matches Some(j) ==> codec::dec_root_doc(j) is None)
                    &&& e is JsonError
                },
            }
        }),
{
    let j = match jsonparse::json_parse_str(input) {
        Some(j) => j,
        None => {
            return Err(ParseError::JsonError(String::from_str("malformed JSON")));
        },
    };
    match codec::json_to_root(&j) {
        Some(root) => Ok(root),
        None => Err(ParseError::JsonError(String::from_str("not a document tree"))),
    }
}

} // verus!
