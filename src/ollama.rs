use vstd::prelude::*;
use vstd::string::StrSliceExecFns;
use vstd::string::StringExecFns;
use crate::context::units_view;
use crate::error::ModelError;
use crate::number::{parse_usize, unsigned_text_value};

verus! {

/// The context window assumed for a model whose parameters declare none.
pub const DEFAULT_CONTEXT_LIMIT: usize = 2048;

/// One decoded line of the streaming reply: a piece of text and whether it is the last.
#[derive(Clone, Debug, PartialEq, Eq)]
pub struct OllamaResponse {
    pub response: String,
    pub done: bool,
}

/// The text that the backend sent, up to and including the line marked done.
pub open spec fn response_text(chunks: Seq<OllamaResponse>) -> Seq<char>
    decreases chunks.len(),
{
    if chunks.len() == 0 {
        Seq::empty()
    } else if chunks[0].done {
        chunks[0].response@
    } else {
        chunks[0].response@ + response_text(chunks.skip(1))
    }
}

/// The fragments handed to the consumer: the non-empty pieces of text, in order,
/// up to and including the line marked done.
pub open spec fn fragments(chunks: Seq<OllamaResponse>) -> Seq<Seq<char>>
    decreases chunks.len(),
{
    if chunks.len() == 0 {
        Seq::empty()
    } else {
        let rest = if chunks[0].done {
            Seq::empty()
        } else {
            fragments(chunks.skip(1))
        };
        if chunks[0].response@.len() > 0 {
            seq![chunks[0].response@] + rest
        } else {
            rest
        }
    }
}

/// Classifies the fields read from one reply line: a reported error is a model
/// failure; a line with both its text and its done flag is a chunk; anything
/// else is malformed.
pub fn classify_line(response: Option<String>, done: Option<bool>, error: Option<String>) -> (r:
    Result<OllamaResponse, ModelError>)
    ensures
        r == match error {
            Some(e) => Err(ModelError::Model(e)),
            None => match (response, done) {
                (Some(t), Some(d)) => Ok(OllamaResponse { response: t, done: d }),
                _ => Err(ModelError::Deserialize),
            },
        },
{
    match error {
        Some(e) => Err(ModelError::Model(e)),
        None => match (response, done) {
            (Some(t), Some(d)) => Ok(OllamaResponse { response: t, done: d }),
            _ => Err(ModelError::Deserialize),
        },
    }
}

/// What one decoded line gives the consumer: a fragment unless its text is
/// empty, and whether the stream ends with it.
pub fn next_fragment(chunk: &OllamaResponse) -> (r: (Option<String>, bool))
    ensures
        r.0 == (if chunk.response@.len() > 0 {
            Some(chunk.response)
        } else {
            None::<String>
        }),
        r.1 == chunk.done,
{
    let text = chunk.response.clone();
    if text.as_str().unicode_len() > 0 {
        (Some(text), chunk.done)
    } else {
        (None, chunk.done)
    }
}

/// The fragments of a whole reply, in the order the backend sent them.
pub fn collect_fragments(chunks: &Vec<OllamaResponse>) -> (r: Vec<String>)
    ensures
        units_view(r@) == fragments(chunks@),
{
    let mut out: Vec<String> = Vec::new();
    let n = chunks.len();
    let mut i: usize = 0;
    let mut finished = false;
    proof {
        assert(chunks@.skip(0) =~= chunks@);
        assert(units_view(out@) + fragments(chunks@) =~= fragments(chunks@));
    }
    while i < n && !finished
        invariant
            n == chunks@.len(),
            i <= n,
            finished ==> units_view(out@) == fragments(chunks@),
            !finished ==> units_view(out@) + fragments(chunks@.skip(i as int)) == fragments(chunks@),
        decreases n - i + (if finished { 0int } else { 1int }),
    {
        let ghost rest = chunks@.skip(i as int);
        proof {
            assert(rest.skip(1) =~= chunks@.skip(i + 1));
            assert(rest[0] == chunks@[i as int]);
        }
        let (fragment, done) = next_fragment(&chunks[i]);
        match fragment {
            Some(text) => {
                proof {
                    assert(units_view(out@.push(text)) =~= units_view(out@) + seq![text@]);
                }
                out.push(text);
            },
            None => {},
        }
        proof {
            if done {
                assert(units_view(out@) =~= units_view(out@) + Seq::<Seq<char>>::empty());
            } else {
                assert(units_view(out@) + fragments(chunks@.skip(i + 1)) =~= fragments(chunks@));
            }
        }
        finished = done;
        i = i + 1;
    }
    proof {
        if !finished {
            assert(chunks@.skip(i as int) =~= Seq::<OllamaResponse>::empty());
            assert(units_view(out@) =~= units_view(out@) + Seq::<Seq<char>>::empty());
        }
    }
    out
}

/// The fragments of a reply, joined, give its whole text, and none of them is empty.
pub proof fn lemma_fragments_join(chunks: Seq<OllamaResponse>)
    ensures
        fragments(chunks).flatten() == response_text(chunks),
        forall|i: int| 0 <= i < fragments(chunks).len() ==> #[trigger] fragments(chunks)[i].len() > 0,
    decreases chunks.len(),
{
    if chunks.len() > 0 {
        let rest = if chunks[0].done {
            Seq::<Seq<char>>::empty()
        } else {
            fragments(chunks.skip(1))
        };
        if !chunks[0].done {
            lemma_fragments_join(chunks.skip(1));
        }
        assert(rest.flatten() == if chunks[0].done {
            Seq::<char>::empty()
        } else {
            response_text(chunks.skip(1))
        });
        if chunks[0].response@.len() > 0 {
            assert((seq![chunks[0].response@] + rest).drop_first() =~= rest);
        } else {
            assert(chunks[0].response@ + rest.flatten() =~= rest.flatten());
        }
        if chunks[0].done {
            assert(chunks[0].response@ + Seq::<char>::empty() =~= chunks[0].response@);
        }
    }
}

/// The text of every line of a reply, joined in order.
pub open spec fn all_text(chunks: Seq<OllamaResponse>) -> Seq<char>
    decreases chunks.len(),
{
    if chunks.len() == 0 {
        Seq::empty()
    } else {
        chunks[0].response@ + all_text(chunks.skip(1))
    }
}

/// When only the last line of a reply is marked done (or none is), the
/// fragments joined give the text of all its lines.
pub proof fn lemma_fragments_join_all(chunks: Seq<OllamaResponse>)
    requires
        forall|i: int| 0 <= i < chunks.len() - 1 ==> !(#[trigger] chunks[i]).done,
    ensures
        fragments(chunks).flatten() == all_text(chunks),
    decreases chunks.len(),
{
    lemma_fragments_join(chunks);
    lemma_response_text_all(chunks);
}

proof fn lemma_response_text_all(chunks: Seq<OllamaResponse>)
    requires
        forall|i: int| 0 <= i < chunks.len() - 1 ==> !(#[trigger] chunks[i]).done,
    ensures
        response_text(chunks) == all_text(chunks),
    decreases chunks.len(),
{
    if chunks.len() > 0 {
        let rest = chunks.skip(1);
        assert forall|i: int| 0 <= i < rest.len() - 1 implies !(#[trigger] rest[i]).done by {
            assert(rest[i] == chunks[i + 1]);
        }
        lemma_response_text_all(rest);
        if chunks[0].done {
            assert(rest.len() == 0);
            assert(all_text(rest) == Seq::<char>::empty());
            assert(chunks[0].response@ + Seq::<char>::empty() =~= chunks[0].response@);
        }
    }
}

/// The lines of a text, split at each `\n` (which no line keeps). A text with no
/// `\n` is one line, and an empty text is one empty line.
pub open spec fn lines_of(s: Seq<char>) -> Seq<Seq<char>>
    decreases s.len(),
{
    if s.len() == 0 {
        seq![Seq::empty()]
    } else {
        let prev = lines_of(s.drop_last());
        if s.last() == '\n' {
            prev.push(Seq::empty())
        } else {
            prev.update(prev.len() - 1, prev.last().push(s.last()))
        }
    }
}

proof fn lemma_lines_nonempty(s: Seq<char>)
    ensures
        lines_of(s).len() >= 1,
    decreases s.len(),
{
    if s.len() > 0 {
        lemma_lines_nonempty(s.drop_last());
    }
}

/// Splits a text into its lines.
pub fn split_lines(s: &str) -> (r: Vec<String>)
    ensures
        units_view(r@) == lines_of(s@),
{
    let n = s.unicode_len();
    let mut done: Vec<String> = Vec::new();
    let mut start: usize = 0;
    let mut i: usize = 0;
    proof {
        assert(s@.take(0) =~= Seq::<char>::empty());
        assert(units_view(done@).push(s@.subrange(0, 0)) =~= seq![Seq::<char>::empty()]);
    }
    while i < n
        invariant
            n == s@.len(),
            start <= i <= n,
            lines_of(s@.take(i as int)) == units_view(done@).push(s@.subrange(start as int, i as int)),
        decreases n - i,
    {
        let c = s.get_char(i);
        proof {
            assert(s@.take(i + 1).drop_last() =~= s@.take(i as int));
            assert(s@.take(i + 1).last() == c);
            lemma_lines_nonempty(s@.take(i as int));
        }
        if c == '\n' {
            let line = s.substring_char(start, i);
            let line = String::from_str(line);
            proof {
                assert(units_view(done@.push(line)) =~= units_view(done@).push(line@));
            }
            done.push(line);
            start = i + 1;
            proof {
                assert(s@.subrange(start as int, start as int) =~= Seq::<char>::empty());
            }
        } else {
            proof {
                assert(s@.subrange(start as int, i + 1) =~= s@.subrange(start as int, i as int).push(c));
                assert(units_view(done@).push(s@.subrange(start as int, i as int)).update(
                    done@.len() as int,
                    s@.subrange(start as int, i + 1),
                ) =~= units_view(done@).push(s@.subrange(start as int, i + 1)));
            }
        }
        i = i + 1;
    }
    let last = String::from_str(s.substring_char(start, n));
    proof {
        assert(s@.take(n as int) =~= s@);
        assert(units_view(done@.push(last)) =~= units_view(done@).push(last@));
    }
    done.push(last);
    done
}

/// The name of the model parameter that declares the context window.
pub open spec fn num_ctx_name() -> Seq<char> {
    seq!['n', 'u', 'm', '_', 'c', 't', 'x']
}

/// The text after the parameter name and the one character that follows it.
pub open spec fn param_rest(line: Seq<char>) -> Seq<char> {
    if line.len() >= 8 {
        line.skip(8)
    } else {
        Seq::empty()
    }
}

/// The first line that starts with the parameter name, if any.
pub open spec fn first_num_ctx_line(lines: Seq<Seq<char>>) -> Option<Seq<char>>
    decreases lines.len(),
{
    if lines.len() == 0 {
        None
    } else if num_ctx_name().is_prefix_of(lines[0]) {
        Some(lines[0])
    } else {
        first_num_ctx_line(lines.skip(1))
    }
}

/// A character of Unicode's White_Space property, which is what `str::trim` removes.
pub open spec fn is_white_space(c: char) -> bool {
    ('\u{9}' <= c && c <= '\u{d}') || c == ' ' || c == '\u{85}' || c == '\u{a0}' || c == '\u{1680}'
        || ('\u{2000}' <= c && c <= '\u{200a}') || c == '\u{2028}' || c == '\u{2029}' || c
        == '\u{202f}' || c == '\u{205f}' || c == '\u{3000}'
}

pub open spec fn trim_start_of(s: Seq<char>) -> Seq<char>
    decreases s.len(),
{
    if s.len() > 0 && is_white_space(s[0]) {
        trim_start_of(s.skip(1))
    } else {
        s
    }
}

pub open spec fn trim_end_of(s: Seq<char>) -> Seq<char>
    decreases s.len(),
{
    if s.len() > 0 && is_white_space(s.last()) {
        trim_end_of(s.drop_last())
    } else {
        s
    }
}

/// A text without its leading and trailing white space.
pub open spec fn trimmed_of(s: Seq<char>) -> Seq<char> {
    trim_end_of(trim_start_of(s))
}

fn white_space(c: char) -> (r: bool)
    ensures
        r == is_white_space(c),
{
    ('\u{9}' <= c && c <= '\u{d}') || c == ' ' || c == '\u{85}' || c == '\u{a0}' || c == '\u{1680}'
        || ('\u{2000}' <= c && c <= '\u{200a}') || c == '\u{2028}' || c == '\u{2029}' || c
        == '\u{202f}' || c == '\u{205f}' || c == '\u{3000}'
}

/// The text without leading and trailing white space.
pub fn trim_text(s: &str) -> (r: String)
    ensures
        r@ == trimmed_of(s@),
{
    let n = s.unicode_len();
    let mut i: usize = 0;
    proof {
        assert(s@.skip(0) =~= s@);
    }
    while i < n && white_space(s.get_char(i))
        invariant
            i <= n,
            n == s@.len(),
            trim_start_of(s@.skip(i as int)) == trim_start_of(s@),
        decreases n - i,
    {
        proof {
            assert(s@.skip(i as int).skip(1) =~= s@.skip(i + 1));
        }
        i = i + 1;
    }
    proof {
        assert(s@.skip(i as int) =~= s@.subrange(i as int, n as int));
    }
    let mut j: usize = n;
    while j > i && white_space(s.get_char(j - 1))
        invariant
            i <= j <= n,
            n == s@.len(),
            trim_start_of(s@) == s@.subrange(i as int, n as int),
            trim_end_of(s@.subrange(i as int, j as int)) == trimmed_of(s@),
        decreases j,
    {
        proof {
            assert(s@.subrange(i as int, j as int).drop_last() =~= s@.subrange(i as int, j - 1));
        }
        j = j - 1;
    }
    String::from_str(s.substring_char(i, j))
}

/// Reads a context window from the text of one parameter value.
pub fn context_limit_from_value(value: &str) -> (r: Result<usize, ModelError>)
    ensures
        r == match unsigned_text_value(value@) {
            Some(v) => if v <= usize::MAX {
                Ok::<usize, ModelError>(v as usize)
            } else {
                Err(ModelError::Deserialize)
            },
            None => Err(ModelError::Deserialize),
        },
{
    match parse_usize(value) {
        Some(v) => Ok(v),
        None => Err(ModelError::Deserialize),
    }
}

fn starts_with_num_ctx(line: &str) -> (r: bool)
    ensures
        r == num_ctx_name().is_prefix_of(line@),
{
    let key = ['n', 'u', 'm', '_', 'c', 't', 'x'];
    let n = line.unicode_len();
    if n < 7 {
        return false;
    }
    let mut i: usize = 0;
    while i < 7
        invariant
            i <= 7 <= n,
            n == line@.len(),
            key@ == num_ctx_name(),
            forall|j: int| 0 <= j < i ==> line@[j] == num_ctx_name()[j],
        decreases 7 - i,
    {
        if line.get_char(i) != key[i] {
            return false;
        }
        i = i + 1;
    }
    proof {
        assert(num_ctx_name() =~= line@.subrange(0, 7));
    }
    true
}

/// The context window that a model's parameter listing declares: the value on
/// the first line that starts with `num_ctx`, or the default when no line does.
pub fn context_limit_from_parameters(parameters: &str) -> (r: Result<usize, ModelError>)
    ensures
        r == match first_num_ctx_line(lines_of(parameters@)) {
            None => Ok::<usize, ModelError>(DEFAULT_CONTEXT_LIMIT),
            Some(line) => match unsigned_text_value(trimmed_of(param_rest(line))) {
                Some(v) => if v <= usize::MAX {
                    Ok::<usize, ModelError>(v as usize)
                } else {
                    Err(ModelError::Deserialize)
                },
                None => Err(ModelError::Deserialize),
            },
        },
{
    let lines = split_lines(parameters);
    let ghost lv = units_view(lines@);
    let n = lines.len();
    let mut i: usize = 0;
    proof {
        assert(lv.skip(0) =~= lv);
    }
    while i < n
        invariant
            n == lines@.len(),
            lv == units_view(lines@),
            lv == lines_of(parameters@),
            i <= n,
            first_num_ctx_line(lv.skip(i as int)) == first_num_ctx_line(lv),
        decreases n - i,
    {
        let line = lines[i].as_str();
        proof {
            assert(lv.skip(i as int).skip(1) =~= lv.skip(i + 1));
            assert(lv.skip(i as int)[0] == line@);
        }
        if starts_with_num_ctx(line) {
            let len = line.unicode_len();
            let rest = if len >= 8 {
                line.substring_char(8, len)
            } else {
                ""
            };
            proof {
                if len >= 8 {
                    assert(rest@ =~= param_rest(line@));
                } else {
                    reveal_strlit("");
                    assert(rest@ =~= param_rest(line@));
                }
            }
            let value = trim_text(rest);
            proof {
                assert(first_num_ctx_line(lv.skip(i as int)) == Some(line@));
            }
            let res = context_limit_from_value(value.as_str());
            return res;
        }
        i = i + 1;
    }
    proof {
        assert(lv.skip(n as int) =~= Seq::<Seq<char>>::empty());
    }
    Ok(DEFAULT_CONTEXT_LIMIT)
}

} // verus!
