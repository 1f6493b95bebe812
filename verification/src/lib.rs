//! Core of a SystemVerilog front-end: a directive-resolving token
//! preprocessor, a high-level intermediate representation (HIR) of the design
//! hierarchy, and memoised elaboration of module instances into parameter
//! environments and port mappings.
//!
//! The central guarantees are stated on the functions they concern and
//! proved there:
//!
//! * An input holding no backtick passes through the preprocessor
//!   unchanged — same kinds, same spans, same order as the lexer's stream
//!   ([`preproc::Preprocessor::emit_all`]).
//! * Every emitted token's span lies inside a registered source, so its
//!   extraction is a contiguous part of that source's text
//!   ([`preproc::Preprocessor::next_token`], [`source::lemma_span_fidelity`]).
//! * A token is only ever emitted while the conditional-compilation stack
//!   permits it ([`preproc::Preprocessor::next_token`]).
//! * Each directive's observable effect is pinned at the dispatch seam,
//!   success owed if and only if its parse (and, for file insertion, its
//!   resolution) goes through: the exact macro a define stores — name,
//!   formals, body — what the conditional directives push by the
//!   definedness of the name they read, which source file insertion
//!   splices and in which search order, what a macro use plays back with
//!   each captured formal substituted, and which state an inactive region
//!   leaves untouched ([`preproc::Preprocessor::handle_directive`] forwards
//!   [`preproc::define_effect`], [`preproc::conditional_effect`],
//!   [`preproc::undef_effect`] and [`preproc::inclusion_effect`]); a
//!   directive head that cannot succeed ends the public iteration with a
//!   fatal error ([`preproc::lifted_fail`]).
//! * Macros are looked up dynamically at use site: redefinition changes
//!   later expansions and nothing else, and an expansion plays back only
//!   body tokens and captured raw tokens — no span is synthesised
//!   ([`preproc::Preprocessor::define_macro`]).
//! * Parameter environments are hash-consed: building structurally
//!   identical bindings yields the same handle, and distinct handles hold
//!   different bindings ([`queries::QueryContext::intern_env`],
//!   [`queries::lemma_env_canonicalisation`], [`queries::lemma_env_isolation`]).
//! * The elaboration queries are memoised per `(node, environment)` key,
//!   failures included: a repeated call returns exactly the cached result
//!   and changes nothing ([`queries::QueryContext::inst_target_details`],
//!   [`queries::QueryContext::inst_details`]).

pub mod cat;
pub mod diag;
pub mod hir;
pub mod inst_details;
pub mod konst;
pub mod numeric;
pub mod param_env;
pub mod queries;
pub mod preproc;
pub mod source;

use vstd::prelude::*;

verus! {

/// A copy of a vector of copyable items.
pub fn copy_vec<T: Copy>(a: &Vec<T>) -> (r: Vec<T>)
    ensures
        r@ == a@,
{
    let mut r: Vec<T> = Vec::new();
    let mut i: usize = 0;
    while i < a.len()
        invariant
            i <= a@.len(),
            r@ == a@.subrange(0, i as int),
        decreases a@.len() - i,
    {
        r.push(a[i]);
        proof {
            assert(r@ =~= a@.subrange(0, i + 1));
        }
        i = i + 1;
    }
    proof {
        assert(r@ =~= a@);
    }
    r
}

/// Returns true when `a` occurs as a contiguous run inside `b`.
pub open spec fn is_subrange_of(a: Seq<u8>, b: Seq<u8>) -> bool {
    exists|k: int| 0 <= k && k + a.len() <= b.len() && a =~= #[trigger] b.subrange(k, k + a.len())
}

} // verus!
