//! The pattern catalog: the `grok` crate behind a small trusted surface.
//!
//! The catalog compiles a template string with named fragment definitions
//! into a matcher and applies it to lines.  Both of its answers — whether
//! a template compiles, and what a line's captures are — are functions of
//! plain values alone: `grok::Grok::compile` reads nothing but the
//! catalog's pattern map and the template, and `grok::Pattern::match_against`
//! is a deterministic regular-expression search of the compiled pattern
//! over the text.  The two answers are therefore given names,
//! [`grok_compiles`] and [`grok_captures`], over the values that determine
//! them: whether the built-in fragments were loaded, the alias pairs added
//! (in order), the template, and the line.  The wrappers state their
//! results through those names; what either name is on given values, only
//! running the engine can tell.
//!
//! [`Catalog`] and [`Matcher`] carry the engine's values together with
//! ghost copies of exactly those determining plain values.  Their fields
//! are private to this module, and every constructor here pairs a ghost
//! model with the one engine call that realizes it, so a value's model
//! always describes its engine state; the wrappers' contracts speak of
//! the engine values through that model.

use vstd::prelude::*;

verus! {

/// grok's fragment catalog, opaque to verification.
#[verifier::external_type_specification]
#[verifier::external_body]
pub struct ExGrok(grok::Grok);

/// grok's compiled pattern, opaque to verification.
#[verifier::external_type_specification]
#[verifier::external_body]
pub struct ExPattern(grok::Pattern);

/// Whether a template compiles against the catalog formed by the built-in
/// fragments (when `defaults` is set) extended, in order, by the given
/// alias definitions.
pub uninterp spec fn grok_compiles(
    defaults: bool,
    aliases: Seq<(Seq<char>, Seq<char>)>,
    template: Seq<char>,
) -> bool;

/// The named captures that matching `line` against the pattern compiled
/// from `template` over that same catalog yields: `None` when the line
/// does not match, otherwise the (name, value) pairs in the order the
/// engine reports them.
pub uninterp spec fn grok_captures(
    defaults: bool,
    aliases: Seq<(Seq<char>, Seq<char>)>,
    template: Seq<char>,
    line: Seq<char>,
) -> Option<Seq<(Seq<char>, Seq<char>)>>;

/// A fragment catalog together with the plain values that determine it:
/// whether the built-in fragments were loaded, and the alias pairs added,
/// in order.
pub struct Catalog {
    grok: grok::Grok,
    defaults: Ghost<bool>,
    aliases: Ghost<Seq<(Seq<char>, Seq<char>)>>,
}

impl Catalog {
    /// Whether the built-in fragment library was loaded.
    pub closed spec fn spec_defaults(self) -> bool {
        self.defaults@
    }

    /// The alias definitions added so far, in insertion order.
    pub closed spec fn spec_aliases(self) -> Seq<(Seq<char>, Seq<char>)> {
        self.aliases@
    }
}

/// A compiled matcher together with the plain values it was compiled
/// from.
pub struct Matcher {
    pattern: grok::Pattern,
    defaults: Ghost<bool>,
    aliases: Ghost<Seq<(Seq<char>, Seq<char>)>>,
    template: Ghost<Seq<char>>,
}

impl Matcher {
    pub closed spec fn spec_defaults(self) -> bool {
        self.defaults@
    }

    pub closed spec fn spec_aliases(self) -> Seq<(Seq<char>, Seq<char>)> {
        self.aliases@
    }

    /// The template this matcher was compiled from.
    pub closed spec fn spec_template(self) -> Seq<char> {
        self.template@
    }
}

/// Relies on grok::Grok::empty: a catalog value with no fragment
/// definitions.
#[verifier::external_body]
fn grok_empty_raw() -> grok::Grok {
    grok::Grok::empty()
}

/// Relies on grok::Grok::with_default_patterns: a catalog value preloaded
/// with the built-in fragment library, which is a fixed compile-time
/// table.
#[verifier::external_body]
fn grok_defaults_raw() -> grok::Grok {
    grok::Grok::with_default_patterns()
}

/// A catalog with no fragment definitions.
pub(crate) fn catalog_empty() -> (r: Catalog)
    ensures
        r.spec_defaults() == false,
        r.spec_aliases() == Seq::<(Seq<char>, Seq<char>)>::empty(),
{
    Catalog { grok: grok_empty_raw(), defaults: Ghost(false), aliases: Ghost(Seq::empty()) }
}

/// A catalog preloaded with the built-in fragments.
pub(crate) fn catalog_with_defaults() -> (r: Catalog)
    ensures
        r.spec_defaults() == true,
        r.spec_aliases() == Seq::<(Seq<char>, Seq<char>)>::empty(),
{
    Catalog { grok: grok_defaults_raw(), defaults: Ghost(true), aliases: Ghost(Seq::empty()) }
}

/// Relies on grok::Grok::add_pattern: binds a fragment name to a
/// definition, overwriting an earlier binding of the same name; the model
/// records the pair at the end of the insertion order.
#[verifier::external_body]
pub(crate) fn catalog_add(c: &mut Catalog, name: String, def: String)
    ensures
        final(c).spec_defaults() == old(c).spec_defaults(),
        final(c).spec_aliases() == old(c).spec_aliases().push((name@, def@)),
{
    c.grok.add_pattern(name, def);
}

/// Relies on grok::Grok::compile: compiles a template, or explains why it
/// cannot (unknown fragment reference, malformed template), the error
/// handed back as its display text.  The verdict depends on the catalog's
/// pattern map and the template alone, so it is exactly the named answer
/// `grok_compiles`.
#[verifier::external_body]
fn grok_compile_raw(c: &Catalog, template: &str) -> (r: Result<grok::Pattern, String>)
    ensures
        r is Ok <==> grok_compiles(c.spec_defaults(), c.spec_aliases(), template@),
{
    c.grok.compile(template, false).map_err(|e| e.to_string())
}

/// Compiles a template against the catalog, handing back a matcher that
/// carries the values it was compiled from.
pub(crate) fn catalog_compile(c: &Catalog, template: &str) -> (r: Result<Matcher, String>)
    ensures
        r is Ok <==> grok_compiles(c.spec_defaults(), c.spec_aliases(), template@),
        r matches Ok(m) ==> m.spec_defaults() == c.spec_defaults() && m.spec_aliases()
            == c.spec_aliases() && m.spec_template() == template@,
{
    match grok_compile_raw(c, template) {
        Ok(pattern) => Ok(
            Matcher {
                pattern,
                defaults: Ghost(c.spec_defaults()),
                aliases: Ghost(c.spec_aliases()),
                template: Ghost(template@),
            },
        ),
        Err(e) => Err(e),
    }
}

/// Relies on grok::Pattern::match_against and grok::Matches::iter:
/// applies the compiled pattern to a line and hands the named captures
/// back as plain (name, value) pairs, or `None` when the line does not
/// match.  The search is deterministic in the pattern and the text, so
/// the result is exactly the named answer `grok_captures`.
#[verifier::external_body]
pub(crate) fn matcher_match(m: &Matcher, text: &str) -> (r: Option<Vec<(String, String)>>)
    ensures
        match r {
            Some(pairs) => grok_captures(
                m.spec_defaults(),
                m.spec_aliases(),
                m.spec_template(),
                text@,
            ) == Some(crate::fields::pair_views(pairs@)),
            None => grok_captures(m.spec_defaults(), m.spec_aliases(), m.spec_template(), text@)
                is None,
        },
{
    match m.pattern.match_against(text) {
        None => None,
        Some(found) => Some(found.iter().map(|(k, v)| (k.to_string(), v.to_string())).collect()),
    }
}

} // verus!
