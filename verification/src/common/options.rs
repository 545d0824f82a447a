//! Optional settings and the values they fall back to.

use vstd::prelude::*;

verus! {

/// An optional text as an optional character sequence.
pub open spec fn text_view(s: Option<String>) -> Option<Seq<char>> {
    match s {
        Some(t) => Some(t@),
        None => None,
    }
}

/// The value of an option where it is given, else the fallback.
pub open spec fn given_or<T>(option: Option<T>, fallback: T) -> T {
    match option {
        Some(v) => v,
        None => fallback,
    }
}

pub fn pick<T: Copy>(option: Option<T>, fallback: T) -> (r: T)
    ensures
        r == given_or(option, fallback),
{
    match option {
        Some(v) => v,
        None => fallback,
    }
}

pub fn pick_text(option: &Option<String>, fallback: String) -> (r: String)
    ensures
        r@ == given_or(text_view(*option), fallback@),
{
    match option {
        Some(text) => text.clone(),
        None => fallback,
    }
}

/// The option where it is given, else the optional fallback.
pub fn pick_path(option: &Option<String>, fallback: Option<String>) -> (r: Option<String>)
    ensures
        text_view(r) == (if option is Some {
            text_view(*option)
        } else {
            text_view(fallback)
        }),
{
    match option {
        Some(text) => Some(text.clone()),
        None => fallback,
    }
}

/// An option that is given wins; one that is not leaves the fallback.
pub proof fn lemma_options_win<T: Copy>(
    option: Option<T>,
    fallback: T,
    value: T,
    text: &Option<String>,
    default_text: String,
    picked: String,
    path: &Option<String>,
    default_path: Option<String>,
    taken: Option<String>,
)
    requires
        call_ensures(pick::<T>, (option, fallback), value),
        call_ensures(pick_text, (text, default_text), picked),
        call_ensures(pick_path, (path, default_path), taken),
    ensures
        option is Some ==> value == option->Some_0,
        option is None ==> value == fallback,
        *text is Some ==> picked@ == (*text)->Some_0@,
        *text is None ==> picked@ == default_text@,
        *path is Some ==> taken is Some && taken->Some_0@ == (*path)->Some_0@,
        *path is None ==> (taken is Some <==> default_path is Some),
        *path is None && taken is Some ==> taken->Some_0@ == default_path->Some_0@,
{
}

} // verus!
