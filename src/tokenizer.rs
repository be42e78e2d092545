//! The "mixed" tokenizer of file names: text detected as Mandarin Chinese
//! goes to a dictionary segmenter, any other text to a splitter on
//! whitespace and punctuation that lowercases.
use vstd::prelude::*;
use tantivy::tokenizer::{LowerCaser, SimpleTokenizer, TextAnalyzer, TokenStream, Tokenizer};

verus! {

/// One token: its text, its ordinal in the stream, and the byte offsets it
/// spans in the input.
#[derive(Clone, Debug)]
pub struct Token {
    pub text: String,
    pub position: usize,
    pub offset_from: usize,
    pub offset_to: usize,
}

/// What a token shows of itself to a contract.
pub open spec fn token_view(t: Token) -> (Seq<char>, usize, usize, usize) {
    (t.text@, t.position, t.offset_from, t.offset_to)
}

/// What a list of tokens shows of itself to a contract.
pub open spec fn tokens_view(v: Seq<Token>) -> Seq<(Seq<char>, usize, usize, usize)> {
    v.map_values(|t: Token| token_view(t))
}

/// Whether the language detected in a text is Mandarin Chinese.
pub uninterp spec fn detects_mandarin(s: Seq<char>) -> bool;

/// The tokens that the Chinese segmenter makes of a text.
pub uninterp spec fn segmented(s: Seq<char>) -> Seq<(Seq<char>, usize, usize, usize)>;

/// The tokens that the whitespace-and-punctuation splitter, followed by
/// lowercasing, makes of a text.
pub uninterp spec fn split_lowered(s: Seq<char>) -> Seq<(Seq<char>, usize, usize, usize)>;

/// Relies on `whichlang::detect_language`: whether it answers `Lang::Cmn`.
#[verifier::external_body]
fn detect_mandarin(text: &str) -> (r: bool)
    ensures
        r == detects_mandarin(text@),
{
    matches!(whichlang::detect_language(text), whichlang::Lang::Cmn)
}

/// Relies on `tantivy_jieba::JiebaTokenizer` in search mode, with positions
/// numbered in stream order: the tokens of its stream.
#[verifier::external_body]
fn jieba_tokens(text: &str) -> (r: Vec<Token>)
    ensures
        tokens_view(r@) == segmented(text@),
        text@.len() == 0 ==> r@.len() == 0,
{
    let mut tokenizer = tantivy_jieba::JiebaTokenizer::with_ordinal_position_mode(true);
    let mut out = Vec::new();
    tokenizer.token_stream(text).process(&mut |t| out.push(Token { text: t.text.clone(), position: t.position, offset_from: t.offset_from, offset_to: t.offset_to }));
    out
}

/// Relies on tantivy's `SimpleTokenizer` followed by `LowerCaser`: the
/// tokens of their stream.
#[verifier::external_body]
fn simple_tokens(text: &str) -> (r: Vec<Token>)
    ensures
        tokens_view(r@) == split_lowered(text@),
        text@.len() == 0 ==> r@.len() == 0,
{
    let mut analyzer = TextAnalyzer::builder(SimpleTokenizer::default()).filter(LowerCaser).build();
    let mut out = Vec::new();
    analyzer.token_stream(text).process(&mut |t| out.push(Token { text: t.text.clone(), position: t.position, offset_from: t.offset_from, offset_to: t.offset_to }));
    out
}

/// The two ways of cutting a text into tokens.
#[derive(Clone, Copy, Debug, PartialEq, Eq, Structural)]
pub enum Segmenter {
    /// The dictionary segmenter, for Mandarin Chinese.
    Chinese,
    /// The splitter on whitespace and punctuation.
    Simple,
}

/// The segmenter for a text.
pub open spec fn segmenter_spec(s: Seq<char>) -> Segmenter {
    if detects_mandarin(s) {
        Segmenter::Chinese
    } else {
        Segmenter::Simple
    }
}

/// The tokens of a text.
pub open spec fn mixed_spec(s: Seq<char>) -> Seq<(Seq<char>, usize, usize, usize)> {
    match segmenter_spec(s) {
        Segmenter::Chinese => segmented(s),
        Segmenter::Simple => split_lowered(s),
    }
}

/// The segmenter for a text: the Chinese one where its detected language is
/// Mandarin Chinese, the simple one otherwise.
pub fn segmenter_for(text: &str) -> (r: Segmenter)
    ensures
        r == segmenter_spec(text@),
{
    if detect_mandarin(text) {
        Segmenter::Chinese
    } else {
        Segmenter::Simple
    }
}

/// The tokens of a text, with the segmenter that `segmenter_for` picks. The
/// index uses this one function both for names and for queries.
pub fn mixed_tokens(text: &str) -> (r: Vec<Token>)
    ensures
        tokens_view(r@) == mixed_spec(text@),
        text@.len() == 0 ==> mixed_spec(text@).len() == 0,
{
    match segmenter_for(text) {
        Segmenter::Chinese => jieba_tokens(text),
        Segmenter::Simple => simple_tokens(text),
    }
}

/// The tokens depend on the text alone: a name indexed and a query of the
/// same text give the same token sequence.
pub proof fn lemma_tokens_symmetric(indexed: Seq<char>, queried: Seq<char>)
    requires
        indexed == queried,
    ensures
        mixed_spec(indexed) == mixed_spec(queried),
        segmenter_spec(indexed) == segmenter_spec(queried),
{
}

} // verus!
