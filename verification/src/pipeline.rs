//! One request, from raw bytes to the CSV response.
//!
//! The request body is decoded as UTF-8 (invalid bytes abort the
//! request), cut into chunks, and each chunk is sent to the generation
//! service by the caller. Every outcome of those calls, a reply or a
//! service failure, is collected here under the degrade-and-continue
//! policy: a chunk whose call failed, or whose reply matched no
//! supported shape, contributes zero pairs and never aborts the rest.
//! The collected pairs are encoded as one CSV document.

use vstd::prelude::*;

use crate::chunk::budget_chunks;
use crate::chunk::para_chunks;
use crate::chunk::split;
use crate::chunk::split_text_into_chunks;
use crate::csv_enc::encode_csv;
use crate::csv_enc::spec_csv;
use crate::normalize::GenerationReply;
use crate::normalize::normalize;
use crate::normalize::spec_normalize;

verus! {

/// The request body was not valid UTF-8: the request is aborted, with
/// no output and no generation call.
#[derive(Clone, Copy, Debug, PartialEq, Eq, Structural)]
pub struct InputDecodingError;

/// The generation service could not be reached or reported a failure:
/// the chunk degrades to zero pairs.
#[derive(Clone, Copy, Debug, PartialEq, Eq, Structural)]
pub struct GenerationServiceError;

/// How a request's text is cut into chunks.
pub enum ChunkStrategy {
    /// A running word budget: a chunk closes when the next line would
    /// push its word count over `max_words`; `flush_tail` emits the
    /// final open chunk instead of dropping it.
    WordBudget { max_words: usize, flush_tail: bool },
    /// A chunk boundary at every blank line, with no budget at all.
    Paragraphs,
}

/// The chunks that `strategy` yields for `text`.
pub open spec fn spec_chunks_of(text: Seq<char>, strategy: ChunkStrategy) -> Seq<Seq<char>> {
    match strategy {
        ChunkStrategy::WordBudget { max_words, flush_tail } => budget_chunks(
            text,
            max_words as int,
            flush_tail,
        ),
        ChunkStrategy::Paragraphs => para_chunks(text),
    }
}

/// Cuts `text` into chunks according to `strategy`.
pub fn chunks_of(text: &str, strategy: &ChunkStrategy) -> (chunks: Vec<String>)
    ensures
        chunks.deep_view() == spec_chunks_of(text@, *strategy),
{
    match strategy {
        ChunkStrategy::WordBudget { max_words, flush_tail } => split(
            text,
            *max_words,
            *flush_tail,
        ),
        ChunkStrategy::Paragraphs => split_text_into_chunks(text),
    }
}

/// Relies on String::from_utf8: returns the decoded text exactly when
/// the bytes are valid UTF-8, and nothing otherwise.
#[verifier::external_body]
fn utf8_to_string(bytes: Vec<u8>) -> (r: Option<String>)
    ensures
        r is Some <==> vstd::utf8::valid_utf8(bytes@),
        r matches Some(s) ==> s@ == vstd::utf8::decode_utf8(bytes@),
{
    String::from_utf8(bytes).ok()
}

/// Decodes a request body as UTF-8 text. Invalid bytes are a hard
/// failure: the caller aborts the request with no output.
pub fn decode_input(body: Vec<u8>) -> (r: Result<String, InputDecodingError>)
    ensures
        r is Ok <==> vstd::utf8::valid_utf8(body@),
        r matches Ok(s) ==> s@ == vstd::utf8::decode_utf8(body@),
{
    match utf8_to_string(body) {
        Some(s) => Ok(s),
        None => Err(InputDecodingError),
    }
}

/// Decodes the body and cuts it into chunks. The result is an error
/// exactly when the body is not valid UTF-8; the caller then issues no
/// generation call at all, since there is no chunk to send.
pub fn prepare_chunks(body: Vec<u8>, strategy: &ChunkStrategy) -> (r: Result<
    Vec<String>,
    InputDecodingError,
>)
    ensures
        r is Ok <==> vstd::utf8::valid_utf8(body@),
        r matches Ok(chunks) ==> chunks.deep_view() == spec_chunks_of(
            vstd::utf8::decode_utf8(body@),
            *strategy,
        ),
{
    match decode_input(body) {
        Ok(text) => Ok(chunks_of(text.as_str(), strategy)),
        Err(e) => Err(e),
    }
}

/// The fixed text standing before the chunk in every prompt.
pub open spec fn prompt_head() -> Seq<char> {
    "\nHere is the user input to work with:\n\n---\n"@
}

/// The fixed text standing after the chunk in every prompt.
pub open spec fn prompt_tail() -> Seq<char> {
    "\n---\n\nYour task is to dissect this text for both granular details and broader themes, crafting as many Q&A pairs as possible. The questions should cover different types: factual, inferential, thematic, etc. Answers must be concise and reflective of the text's intent. Please generate as many question and answers as possible. Provide the results in the following JSON format:\n{\n    \"qa_pairs\": [\n        {\n            \"question\": \"<Your question>\",\n            \"answer\": \"<Your answer>\"\n        },\n        // ... additional Q&A pairs based on text length\n    ]\n}"@
}

/// The prompt sent for one chunk: the chunk text interpolated into the
/// fixed instructional template.
pub fn build_prompt(chunk: &str) -> (r: String)
    ensures
        r@ == prompt_head() + chunk@ + prompt_tail(),
{
    let mut out: String =
        "\nHere is the user input to work with:\n\n---\n".to_owned();
    out.append(chunk);
    out.append(
        "\n---\n\nYour task is to dissect this text for both granular details and broader themes, crafting as many Q&A pairs as possible. The questions should cover different types: factual, inferential, thematic, etc. Answers must be concise and reflective of the text's intent. Please generate as many question and answers as possible. Provide the results in the following JSON format:\n{\n    \"qa_pairs\": [\n        {\n            \"question\": \"<Your question>\",\n            \"answer\": \"<Your answer>\"\n        },\n        // ... additional Q&A pairs based on text length\n    ]\n}",
    );
    out
}

/// What one chunk contributes under degrade-and-continue: the pairs of
/// a normalized reply, and nothing for a failed call or an
/// uninterpretable reply.
pub open spec fn spec_chunk_pairs(outcome: Result<GenerationReply, GenerationServiceError>) -> Seq<
    (Seq<char>, Seq<char>),
> {
    match outcome {
        Ok(reply) => match spec_normalize(reply) {
            Ok(ps) => ps,
            Err(_) => seq![],
        },
        Err(_) => seq![],
    }
}

/// The pairs of one chunk's outcome: a failed call or an
/// uninterpretable reply degrades to zero pairs, never to an error.
pub fn chunk_pairs(outcome: &Result<GenerationReply, GenerationServiceError>) -> (r: Vec<
    (String, String),
>)
    ensures
        r.deep_view() == spec_chunk_pairs(*outcome),
{
    match outcome {
        Ok(reply) => match normalize(reply) {
            Ok(ps) => ps,
            Err(_) => {
                let out: Vec<(String, String)> = Vec::new();
                proof {
                    assert(out.deep_view() =~= Seq::<(Seq<char>, Seq<char>)>::empty());
                }
                out
            },
        },
        Err(_) => {
            let out: Vec<(String, String)> = Vec::new();
            proof {
                assert(out.deep_view() =~= Seq::<(Seq<char>, Seq<char>)>::empty());
            }
            out
        },
    }
}

/// The result set of a whole request: every chunk's contribution, in
/// chunk order, each chunk's pairs in reply order.
pub open spec fn spec_collect(
    outcomes: Seq<Result<GenerationReply, GenerationServiceError>>,
) -> Seq<(Seq<char>, Seq<char>)>
    decreases outcomes.len(),
{
    if outcomes.len() == 0 {
        seq![]
    } else {
        spec_collect(outcomes.drop_last()) + spec_chunk_pairs(outcomes.last())
    }
}

/// Collects the pairs of all chunks' outcomes, in chunk order, within
/// each chunk in reply order, under degrade-and-continue.
pub fn collect_pairs(outcomes: &Vec<Result<GenerationReply, GenerationServiceError>>) -> (r: Vec<
    (String, String),
>)
    ensures
        r.deep_view() == spec_collect(outcomes@),
{
    let mut out: Vec<(String, String)> = Vec::new();
    let mut i: usize = 0;
    proof {
        assert(outcomes@.take(0) =~= Seq::<Result<GenerationReply, GenerationServiceError>>::empty());
        assert(out.deep_view() =~= Seq::<(Seq<char>, Seq<char>)>::empty());
    }
    while i < outcomes.len()
        invariant
            i <= outcomes.len(),
            out.deep_view() == spec_collect(outcomes@.take(i as int)),
        decreases outcomes.len() - i,
    {
        let ghost out0 = out.deep_view();
        let mut ps = chunk_pairs(&outcomes[i]);
        let ghost psv = ps.deep_view();
        out.append(&mut ps);
        proof {
            assert(outcomes@.take(i + 1).drop_last() =~= outcomes@.take(i as int));
            assert(outcomes@.take(i + 1).last() == outcomes@[i as int]);
            assert(out.deep_view() =~= out0 + psv);
        }
        i = i + 1;
    }
    proof {
        assert(outcomes@.take(outcomes@.len() as int) =~= outcomes@);
    }
    out
}

/// The CSV response for one request: the collected result set, encoded
/// with the fixed header.
pub fn respond_csv(outcomes: &Vec<Result<GenerationReply, GenerationServiceError>>) -> (out: String)
    ensures
        out@ == spec_csv(spec_collect(outcomes@)),
{
    let rows = collect_pairs(outcomes);
    encode_csv(&rows)
}

/// A chunk whose generation call failed, or whose reply matched no
/// supported shape, contributes nothing: the result set equals the one
/// collected with that chunk left out entirely, so every other chunk's
/// pairs survive, in their order.
pub proof fn lemma_failed_chunk_contributes_nothing(
    outcomes: Seq<Result<GenerationReply, GenerationServiceError>>,
    i: int,
)
    requires
        0 <= i < outcomes.len(),
        outcomes[i] matches Ok(reply) ==> spec_normalize(reply) is Err,
    ensures
        spec_collect(outcomes) == spec_collect(outcomes.remove(i)),
    decreases outcomes.len(),
{
    assert(spec_chunk_pairs(outcomes[i]) =~= Seq::<(Seq<char>, Seq<char>)>::empty());
    if i == outcomes.len() - 1 {
        assert(outcomes.remove(i) =~= outcomes.drop_last());
        assert(spec_collect(outcomes) =~= spec_collect(outcomes.drop_last()));
    } else {
        lemma_failed_chunk_contributes_nothing(outcomes.drop_last(), i);
        assert(outcomes.remove(i).drop_last() =~= outcomes.drop_last().remove(i));
        assert(outcomes.remove(i).last() == outcomes.last());
    }
}

} // verus!
