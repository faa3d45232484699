//! The context that `tera`, the template engine, renders with.
//!
//! Rendering itself is left to the caller: nothing here runs the engine,
//! and what a template renders to is not stated anywhere in this crate.

use vstd::prelude::*;
use indexmap::IndexMap;
use tera::Context;
use crate::prompt::answer_entries;
use crate::prompt::Answer;
use crate::prompt::AnswerView;

verus! {

/// `tera`'s rendering context.
#[verifier::external_type_specification]
#[verifier::external_body]
pub struct ExContext(Context);

/// `tera`'s error.
#[verifier::external_type_specification]
#[verifier::external_body]
pub struct ExTeraError(tera::Error);

/// The entries of a context whose values are texts, flags or lists of
/// texts, by their keys.
pub uninterp spec fn context_entries(context: Context) -> Map<Seq<char>, AnswerView>;

/// `Context::new`: a context without entries.
#[verifier::external_body]
pub(crate) fn empty_context() -> (fresh: Context)
    ensures
        context_entries(fresh) == as_context(Seq::empty()),
{
    Context::new()
}

/// `Context::insert` of a text, which always serializes: the key now stands
/// for the text.
#[verifier::external_body]
pub(crate) fn insert_text(context: &mut Context, key: &str, value: &String)
    ensures
        context_entries(*final(context)) == context_entries(*old(context)).insert(
            key@,
            AnswerView::Text(value@),
        ),
{
    context.insert(key, value);
}

/// `Context::insert` of a flag, which always serializes: the key now stands
/// for the flag.
#[verifier::external_body]
pub(crate) fn insert_flag(context: &mut Context, key: &str, value: &bool)
    ensures
        context_entries(*final(context)) == context_entries(*old(context)).insert(
            key@,
            AnswerView::Flag(*value),
        ),
{
    context.insert(key, value);
}

/// `Context::insert` of a list of texts, which always serializes: the key
/// now stands for the list.
#[verifier::external_body]
pub(crate) fn insert_list(context: &mut Context, key: &str, value: &Vec<String>)
    ensures
        context_entries(*final(context)) == context_entries(*old(context)).insert(
            key@,
            AnswerView::List(crate::prompt::texts(value@)),
        ),
{
    context.insert(key, value);
}

/// `Context::clone`: a context with the same entries.
#[verifier::external_body]
pub(crate) fn copy_context(context: &Context) -> (copy: Context)
    ensures
        context_entries(copy) == context_entries(*context),
{
    context.clone()
}

/// `IndexMap::len`: the number of entries.
#[verifier::external_body]
pub(crate) fn answer_count(map: &IndexMap<String, Answer>) -> (n: usize)
    ensures
        n == answer_entries(*map).len(),
{
    map.len()
}

/// `IndexMap::get_index`: the entry at a place, or `None` beyond the last.
#[verifier::external_body]
pub(crate) fn answer_at<'a>(map: &'a IndexMap<String, Answer>, index: usize) -> (r: Option<
    (&'a String, &'a Answer),
>)
    ensures
        match r {
            Some((key, answer)) => index < answer_entries(*map).len() && answer_entries(
                *map,
            )[index as int] == (key@, answer@),
            None => index >= answer_entries(*map).len(),
        },
{
    map.get_index(index)
}

/// The context that a list of answers fills: each answer under its key, a
/// later one in place of an earlier one with the same key.
pub open spec fn as_context(entries: Seq<(Seq<char>, AnswerView)>) -> Map<Seq<char>, AnswerView>
    decreases entries.len(),
{
    if entries.len() == 0 {
        Map::empty()
    } else {
        as_context(entries.drop_last()).insert(entries.last().0, entries.last().1)
    }
}

/// Makes the rendering context that holds every answer under its question's
/// identifier.
pub fn make_tera_context(answers: IndexMap<String, Answer>) -> (context: Context)
    ensures
        context_entries(context) == as_context(answer_entries(answers)),
{
    let mut context = empty_context();
    let count: usize = answer_count(&answers);
    let ghost entries = answer_entries(answers);
    let mut i: usize = 0;
    proof {
        assert(entries.take(0) =~= Seq::empty());
    }
    while i < count
        invariant
            i <= count,
            count == entries.len(),
            entries == answer_entries(answers),
            context_entries(context) == as_context(entries.take(i as int)),
        decreases count - i,
    {
        match answer_at(&answers, i) {
            Some((key, answer)) => {
                match answer {
                    Answer::String(text) => insert_text(&mut context, key.as_str(), text),
                    Answer::Bool(flag) => insert_flag(&mut context, key.as_str(), flag),
                    Answer::Array(items) => insert_list(&mut context, key.as_str(), items),
                }
                proof {
                    let next = entries.take(i + 1);
                    assert(next.drop_last() =~= entries.take(i as int));
                    assert(next.last() == entries[i as int]);
                }
            },
            None => {},
        }
        i += 1;
    }
    proof {
        assert(entries.take(entries.len() as int) =~= entries);
    }
    context
}

} // verus!
