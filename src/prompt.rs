use vstd::prelude::*;
use vstd::string::StrSliceExecFns;
use vstd::string::StringExecFns;
use crate::context::units_view;

verus! {

pub open spec fn is_ident_char(c: char) -> bool {
    ('a' <= c && c <= 'z') || ('A' <= c && c <= 'Z') || ('0' <= c && c <= '9') || c == '_'
}

pub open spec fn extra_word() -> Seq<char> {
    seq!['e', 'x', 't', 'r', 'a']
}

/// The name `extra` stands at position `i` of `t` as a whole identifier.
pub open spec fn names_extra_at(t: Seq<char>, i: int) -> bool {
    &&& 0 <= i && i + 5 <= t.len()
    &&& t.subrange(i, i + 5) == extra_word()
    &&& (i == 0 || !is_ident_char(t[i - 1]))
    &&& (i + 5 == t.len() || !is_ident_char(t[i + 5]))
}

fn ident_char(c: char) -> (r: bool)
    ensures
        r == is_ident_char(c),
{
    ('a' <= c && c <= 'z') || ('A' <= c && c <= 'Z') || ('0' <= c && c <= '9') || c == '_'
}

fn names_extra_here(t: &str, i: usize) -> (r: bool)
    requires
        i + 5 <= t@.len(),
    ensures
        r == names_extra_at(t@, i as int),
{
    let n = t.unicode_len();
    let word = ['e', 'x', 't', 'r', 'a'];
    let mut j: usize = 0;
    while j < 5
        invariant
            j <= 5,
            i + 5 <= n,
            n == t@.len(),
            word@ == extra_word(),
            forall|k: int| 0 <= k < j ==> t@[i + k] == extra_word()[k],
        decreases 5 - j,
    {
        if t.get_char(i + j) != word[j] {
            proof {
                assert(t@.subrange(i as int, i + 5)[j as int] != extra_word()[j as int]);
            }
            return false;
        }
        j = j + 1;
    }
    proof {
        assert(t@.subrange(i as int, i + 5) =~= extra_word());
    }
    let before_ok = i == 0 || !ident_char(t.get_char(i - 1));
    let after_ok = i + 5 == n || !ident_char(t.get_char(i + 5));
    before_ok && after_ok
}

/// Whether a template refers to `extra` as a whole name anywhere in its text.
pub fn template_references_extra(t: &str) -> (r: bool)
    ensures
        r == exists|i: int| names_extra_at(t@, i),
{
    let n = t.unicode_len();
    if n < 5 {
        proof {
            assert forall|i: int| !names_extra_at(t@, i) by {}
        }
        return false;
    }
    let mut i: usize = 0;
    while i <= n - 5
        invariant
            n == t@.len(),
            n >= 5,
            i <= n - 4,
            forall|k: int| 0 <= k < i ==> !names_extra_at(t@, k),
        decreases n - i,
    {
        if names_extra_here(t, i) {
            return true;
        }
        i = i + 1;
    }
    proof {
        assert forall|k: int| !names_extra_at(t@, k) by {
            if 0 <= k < i {
            }
        }
    }
    false
}

/// The separator placed between the pieces of a prompt: one blank line.
pub open spec fn paragraph_sep() -> Seq<char> {
    seq!['\n', '\n']
}

/// The pieces joined with a blank line between each two.
pub open spec fn join_paragraphs(parts: Seq<Seq<char>>) -> Seq<char>
    decreases parts.len(),
{
    if parts.len() == 0 {
        Seq::empty()
    } else if parts.len() == 1 {
        parts[0]
    } else {
        join_paragraphs(parts.drop_last()) + paragraph_sep() + parts.last()
    }
}

/// The free-form extra pieces: those given, then piped-in text when it is not empty.
pub open spec fn extra_parts(extra: Seq<Seq<char>>, piped: Option<Seq<char>>) -> Seq<Seq<char>> {
    match piped {
        Some(p) => if p.len() > 0 {
            extra.push(p)
        } else {
            extra
        },
        None => extra,
    }
}

/// The template text of a run, and the value bound to `extra` when the template
/// refers to it. The text is also given in three parts: the fixed part before
/// the free-form content, the free-form content, and the fixed part after it.
#[derive(Clone, Debug, PartialEq, Eq)]
pub struct PreparedTemplate {
    pub template: String,
    pub extra: Option<String>,
    pub head: String,
    pub free: String,
    pub tail: String,
}

fn join_texts(parts: &Vec<String>) -> (r: String)
    ensures
        r@ == join_paragraphs(units_view(parts@)),
{
    let ghost pv = units_view(parts@);
    let mut out = String::new();
    let mut i: usize = 0;
    proof {
        reveal_strlit("\n\n");
        assert(pv.take(0) =~= Seq::<Seq<char>>::empty());
    }
    while i < parts.len()
        invariant
            i <= parts@.len(),
            pv == units_view(parts@),
            out@ == join_paragraphs(pv.take(i as int)),
        decreases parts@.len() - i,
    {
        proof {
            assert(pv.take(i + 1).drop_last() =~= pv.take(i as int));
            assert(pv.take(i + 1).last() == parts@[i as int]@);
        }
        if i > 0 {
            proof {
                reveal_strlit("\n\n");
            }
            out.append("\n\n");
        } else {
            proof {
                assert(out@ + parts@[0]@ =~= parts@[0]@);
            }
        }
        out.append(parts[i].as_str());
        i = i + 1;
    }
    proof {
        assert(pv.take(parts@.len() as int) =~= pv);
    }
    out
}

/// Builds the template text of a run: the prepended text, the template, the
/// free-form extras (unless the template binds them itself), and the appended
/// text, each two separated by a blank line.
pub fn prepare_template(
    template: &str,
    prepend: &Option<String>,
    append: &Option<String>,
    extra: &Vec<String>,
    piped: &Option<String>,
    references_extra: bool,
) -> (r: PreparedTemplate)
    ensures
        ({
            let t1 = match prepend {
                Some(p) => p@ + paragraph_sep() + template@,
                None => template@,
            };
            let content = join_paragraphs(
                extra_parts(
                    units_view(extra@),
                    match piped {
                        Some(p) => Some(p@),
                        None => None,
                    },
                ),
            );
            let t2 = if references_extra {
                t1
            } else if content.len() > 0 {
                t1 + paragraph_sep() + content
            } else {
                t1
            };
            &&& r.template@ == match append {
                Some(a) => t2 + paragraph_sep() + a@,
                None => t2,
            }
            &&& r.template@ == r.head@ + r.free@ + r.tail@
            &&& r.free@ == if !references_extra && content.len() > 0 {
                content
            } else {
                Seq::empty()
            }
            &&& r.tail@ == match append {
                Some(a) => paragraph_sep() + a@,
                None => Seq::empty(),
            }
            &&& references_extra ==> r.extra is Some && r.extra->Some_0@ == content
            &&& !references_extra ==> r.extra is None
        }),
{
    proof {
        reveal_strlit("\n\n");
    }
    let mut text = match prepend {
        Some(p) => {
            let mut t = p.clone();
            t.append("\n\n");
            t.append(template);
            t
        },
        None => String::from_str(template),
    };
    let mut parts: Vec<String> = extra.clone();
    proof {
        assert(units_view(parts@) =~= units_view(extra@));
    }
    match piped {
        Some(p) => {
            if p.as_str().unicode_len() > 0 {
                let ghost before = parts@;
                parts.push(p.clone());
                proof {
                    assert(units_view(parts@) =~= units_view(before).push(p@));
                }
            }
        },
        None => {},
    }
    let content = join_texts(&parts);
    let mut bound: Option<String> = None;
    let mut free = String::new();
    if references_extra {
        bound = Some(content);
    } else if content.as_str().unicode_len() > 0 {
        text.append("\n\n");
        free = content;
    }
    let mut tail = String::new();
    match append {
        Some(a) => {
            tail.append("\n\n");
            tail.append(a.as_str());
        },
        None => {},
    }
    let mut whole = text.clone();
    whole.append(free.as_str());
    whole.append(tail.as_str());
    proof {
        assert(whole@ =~= text@ + free@ + tail@);
    }
    PreparedTemplate { template: whole, extra: bound, head: text, free, tail }
}

} // verus!
