//! Placeholder expansion: a command template names flags between double
//! braces, and each name that a flag list knows is replaced by that flag's
//! value. Names that no flag matches stay as they are.

use vstd::prelude::*;
use vstd::string::*;
use crate::model::{flag_views, Flag, FlagValue, FlagView};
use crate::text::{
    lemma_replace_absent, lemma_trim_idempotent, occurs_in, replace, replace_all, trim, trim_of,
};

verus! {

/// The token that stands for `name` in a template: `name` between double braces.
pub open spec fn placeholder(name: Seq<char>) -> Seq<char> {
    "{{"@ + name + "}}"@
}

/// `text` with each token for `name` replaced by `value`.
pub open spec fn substitute(text: Seq<char>, name: Seq<char>, value: Seq<char>) -> Seq<char> {
    replace_all(text, placeholder(name), value)
}

/// `text` after the flags have been substituted one after another, in the
/// order of the list.
pub open spec fn expand_flags(text: Seq<char>, flags: Seq<FlagView>) -> Seq<char>
    decreases flags.len(),
{
    if flags.len() == 0 {
        text
    } else {
        substitute(
            expand_flags(text, flags.drop_last()),
            flags.last().name,
            flags.last().value.rendered(),
        )
    }
}

/// The expansion of `text`: the flags first, then the extra token, if any.
pub open spec fn expansion(
    text: Seq<char>,
    flags: Seq<FlagView>,
    extra: Option<(Seq<char>, Seq<char>)>,
) -> Seq<char> {
    match extra {
        Some(pair) => substitute(expand_flags(text, flags), pair.0, pair.1),
        None => expand_flags(text, flags),
    }
}

/// Whether an expansion changed a template into a command worth running:
/// trimmed, it is not empty and differs from the trimmed template.
pub open spec fn worth_running(expanded: Seq<char>, template: Seq<char>) -> bool {
    trim_of(expanded).len() > 0 && trim_of(expanded) != trim_of(template)
}

/// The view of an optional extra token.
pub open spec fn extra_view(extra: Option<(&str, &str)>) -> Option<(Seq<char>, Seq<char>)> {
    match extra {
        Some(pair) => Some((pair.0@, pair.1@)),
        None => None,
    }
}

/// The text that replaces a placeholder for this value.
pub fn render(value: &FlagValue) -> (r: String)
    ensures
        r@ == value@.rendered(),
{
    match value {
        FlagValue::Null => String::new(),
        FlagValue::Bool(b) => if *b {
            String::from_str("true")
        } else {
            String::from_str("false")
        },
        FlagValue::Number(t) => t.clone(),
        FlagValue::Text(t) => t.clone(),
        FlagValue::Compound(t) => t.clone(),
    }
}

/// The token for `name`.
pub fn placeholder_for(name: &str) -> (r: String)
    ensures
        r@ == placeholder(name@),
{
    let mut token = String::from_str("{{");
    token.append(name);
    token.append("}}");
    token
}

/// `text` with each token for `name` replaced by `value`.
pub fn substitute_token(text: &str, name: &str, value: &str) -> (r: String)
    ensures
        r@ == substitute(text@, name@, value@),
{
    let token = placeholder_for(name);
    replace(text, token.as_str(), value)
}

/// Expands a template: every token that names a flag of `flags` is replaced
/// by that flag's value, flag after flag in the order of the list; then the
/// token of `extra`, if one is given, is replaced by its value.
pub fn expand_with_flags(template: &str, flags: &[Flag], extra: Option<(&str, &str)>) -> (out:
    String)
    ensures
        out@ == expansion(template@, flag_views(flags@), extra_view(extra)),
{
    let mut out = template.to_owned();
    let mut i: usize = 0;
    let ghost views = flag_views(flags@);
    while i < flags.len()
        invariant
            i <= flags.len(),
            views == flag_views(flags@),
            out@ == expand_flags(template@, views.take(i as int)),
        decreases flags.len() - i,
    {
        let value = render(&flags[i].value);
        let next = substitute_token(out.as_str(), flags[i].name.as_str(), value.as_str());
        proof {
            assert(views.take(i + 1).drop_last() == views.take(i as int));
            assert(views.take(i + 1).last() == flags@[i as int]@);
        }
        out = next;
        i += 1;
    }
    proof {
        assert(views.take(flags.len() as int) == views);
    }
    match extra {
        Some(pair) => substitute_token(out.as_str(), pair.0, pair.1),
        None => out,
    }
}

/// Whether an expanded command should be run beside its template: trimmed,
/// it is not empty and differs from the trimmed template.
pub fn should_run_expanded(expanded: &str, template: &str) -> (r: bool)
    ensures
        r == worth_running(expanded@, template@),
{
    let e = trim(expanded);
    let o = trim(template);
    !e.is_empty() && e.to_owned() != o.to_owned()
}

/// Whether the token of some flag of the list occurs in `text`.
pub open spec fn names_a_flag(text: Seq<char>, flags: Seq<FlagView>) -> bool {
    exists|i: int| 0 <= i < flags.len() && occurs_in(text, #[trigger] placeholder(flags[i].name))
}

/// A template that holds the token of no flag is its own expansion: what no
/// flag matches passes through unchanged.
pub proof fn lemma_unmatched_tokens_stay(text: Seq<char>, flags: Seq<FlagView>)
    requires
        !names_a_flag(text, flags),
    ensures
        expand_flags(text, flags) == text,
        expansion(text, flags, None) == text,
    decreases flags.len(),
{
    if flags.len() > 0 {
        let front = flags.drop_last();
        assert forall|i: int| 0 <= i < front.len() implies !occurs_in(
            text,
            #[trigger] placeholder(front[i].name),
        ) by {
            assert(front[i] == flags[i]);
        }
        lemma_unmatched_tokens_stay(text, front);
        let last = flags.last();
        assert(last == flags[flags.len() - 1]);
        assert(!occurs_in(text, placeholder(last.name)));
        lemma_replace_absent(text, placeholder(last.name), last.value.rendered());
    }
}

/// With an extra token that does not occur either, the expansion is still the
/// template.
pub proof fn lemma_unmatched_extra_stays(
    text: Seq<char>,
    flags: Seq<FlagView>,
    name: Seq<char>,
    value: Seq<char>,
)
    requires
        !names_a_flag(text, flags),
        !occurs_in(text, placeholder(name)),
    ensures
        expansion(text, flags, Some((name, value))) == text,
{
    lemma_unmatched_tokens_stay(text, flags);
    lemma_replace_absent(text, placeholder(name), value);
}

/// An expansion that is the template, or the trimmed template, is not worth
/// running beside it.
pub proof fn lemma_unchanged_not_worth_running(template: Seq<char>)
    ensures
        !worth_running(template, template),
        !worth_running(trim_of(template), template),
{
    lemma_trim_idempotent(template);
}

/// An expansion that, trimmed, is not empty and is not the trimmed template
/// is worth running.
pub proof fn lemma_changed_worth_running(expanded: Seq<char>, template: Seq<char>)
    requires
        trim_of(expanded).len() > 0,
        trim_of(expanded) != trim_of(template),
    ensures
        worth_running(expanded, template),
{
}

} // verus!
