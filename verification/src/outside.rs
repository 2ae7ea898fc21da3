//! Questions that only the process around the library can answer, handed in as
//! functions.
//!
//! A card needs three answers from outside: a text made safe to paint, whether
//! a text is a loopback IP address, and whether a path exists. [`Lookups`]
//! carries the three functions that give them.
//!
//! The first two depend on their text alone. A contract speaks of them through
//! [`Answers`]: if the functions compute the answers `a`, the result is the one
//! that the specification names for `a`. What is on disk can change from one
//! call to the next, so nothing is asked of that function: a contract says with
//! [`told`] which answer it got for which path, whatever the answer was. And
//! what neither answer can touch is stated on its own, as what stands on a card
//! when every text made safe to paint is left blank.
use vstd::prelude::*;

verus! {

/// The functions that answer the questions.
pub struct Lookups<S, L, E> {
    /// The text with everything taken out that could make it misread:
    /// direction overrides, zero-width and control characters.
    pub sanitize: S,
    /// Whether the text is an IP address of the loopback range.
    pub loopback_ip: L,
    /// Whether a file exists at the path.
    pub on_disk: E,
}

/// What the functions of a [`Lookups`] answer that depend on their text alone.
pub struct Answers {
    pub clean: spec_fn(Seq<char>) -> Seq<char>,
    pub loopback: spec_fn(Seq<char>) -> bool,
}

/// The answers under which every text is blank and no address loops back.
pub open spec fn no_answers() -> Answers {
    Answers { clean: |s: Seq<char>| Seq::<char>::empty(), loopback: |s: Seq<char>| false }
}

/// `f` answers every text.
pub open spec fn answers_all<F: Fn(&str) -> String>(f: F) -> bool {
    forall|a: &str| #[trigger] call_requires(f, (a,))
}

/// `f` decides every text.
pub open spec fn decides_all<F: Fn(&str) -> bool>(f: F) -> bool {
    forall|a: &str| #[trigger] call_requires(f, (a,))
}

/// `f` computes `g`.
pub open spec fn computes<F: Fn(&str) -> String>(f: F, g: spec_fn(Seq<char>) -> Seq<char>) -> bool {
    forall|a: &str, r: String| #[trigger] call_ensures(f, (a,), r) ==> r@ == g(a@)
}

/// `f` decides `g`.
pub open spec fn decides<F: Fn(&str) -> bool>(f: F, g: spec_fn(Seq<char>) -> bool) -> bool {
    forall|a: &str, r: bool| #[trigger] call_ensures(f, (a,), r) ==> r == g(a@)
}

/// `f` was asked about the text, and its answer was `r`.
pub open spec fn told<F: Fn(&str) -> bool>(f: F, text: Seq<char>, r: bool) -> bool {
    exists|a: &str| a@ == text && #[trigger] call_ensures(f, (a,), r)
}

/// `f` was asked for the text made safe to paint, and gave `out`.
pub open spec fn cleaned<F: Fn(&str) -> String>(f: F, text: Seq<char>, out: Seq<char>) -> bool {
    exists|a: &str, r: String| a@ == text && r@ == out && #[trigger] call_ensures(f, (a,), r)
}

/// The answer of a function that decides `g` is that of `g`.
pub proof fn law_told_is_decided<F: Fn(&str) -> bool>(
    f: F,
    g: spec_fn(Seq<char>) -> bool,
    text: Seq<char>,
    r: bool,
)
    requires
        decides(f, g),
        told(f, text, r),
    ensures
        r == g(text),
{
}

impl<S: Fn(&str) -> String, L: Fn(&str) -> bool, E: Fn(&str) -> bool> Lookups<S, L, E> {
    /// The functions take every text.
    pub open spec fn ready(&self) -> bool {
        &&& answers_all(self.sanitize)
        &&& decides_all(self.loopback_ip)
        &&& decides_all(self.on_disk)
    }

    /// The functions that depend on their text alone give the answers `a`.
    pub open spec fn give(&self, a: Answers) -> bool {
        &&& computes(self.sanitize, a.clean)
        &&& decides(self.loopback_ip, a.loopback)
    }
}

} // verus!
