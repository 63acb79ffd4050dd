//! The extractor: wraps a compiled pattern and turns one input line into
//! an ordered field map or a typed parse failure, updating the running
//! statistics as it goes.
//!
//! A line that does not match is a normal, recoverable outcome, never an
//! error that stops the run.  Failures to compile the pattern are raised
//! once, at construction, before any line is read.

use vstd::prelude::*;
use crate::alias::AliasTable;
use crate::catalog::{
    catalog_add, catalog_compile, catalog_empty, catalog_with_defaults, grok_captures,
    grok_compiles, matcher_match, Catalog, Matcher,
};
use crate::errors::RunError;
use crate::fields::{spec_from_pairs, FieldMap};
use crate::stats::Stats;
use crate::text::{spec_trim_end, trim_end};

verus! {

/// What one input line became: exactly one of the two, never both.
#[derive(Debug)]
pub enum ParseOutcome {
    /// The line matched; the captures, keys sorted ascending.
    Matched(FieldMap),
    /// The line did not match: the failure text, and the raw line as read.
    Failed { reason: String, raw: String },
}

impl ParseOutcome {
    pub open spec fn wf(self) -> bool {
        match self {
            ParseOutcome::Matched(fm) => fm.wf(),
            ParseOutcome::Failed { .. } => true,
        }
    }
}

/// The failure text for a line that matched nothing.
pub open spec fn no_match_reason(line: Seq<char>) -> Seq<char> {
    "No matches against data: \""@ + spec_trim_end(line) + "\""@
}

/// Whether the built-in fragments seed the catalog under these options: a
/// run without a patterns directory always uses them; with one, the
/// "no default fragments" flag rules them out.
pub open spec fn spec_catalog_defaults(aliases: Option<&AliasTable>, no_patterns: bool) -> bool {
    match aliases {
        None => true,
        Some(_) => !no_patterns,
    }
}

/// The alias pairs that seed the catalog under these options.
pub open spec fn spec_catalog_aliases(aliases: Option<&AliasTable>) -> Seq<(Seq<char>, Seq<char>)> {
    match aliases {
        None => Seq::empty(),
        Some(t) => t.view_seq(),
    }
}

/// The extractor: a compiled pattern with its catalog.
pub struct GrokParser {
    grok: Catalog,
    pattern: Matcher,
}

impl GrokParser {
    /// Whether this extractor's catalog holds the built-in fragments.
    pub closed spec fn spec_defaults(self) -> bool {
        self.pattern.spec_defaults()
    }

    /// The alias pairs this extractor's catalog was seeded with.
    pub closed spec fn spec_aliases(self) -> Seq<(Seq<char>, Seq<char>)> {
        self.pattern.spec_aliases()
    }

    /// The template this extractor matches with.
    pub closed spec fn spec_template(self) -> Seq<char> {
        self.pattern.spec_template()
    }

    /// Builds the catalog (optionally seeded by an alias table, optionally
    /// without the built-in fragments) and compiles the template.
    /// Construction succeeds exactly when the template compiles against
    /// that catalog; a template the catalog rejects is a fatal compile
    /// error, raised here and never per line.
    pub fn new(pattern: &str, aliases: Option<&AliasTable>, no_patterns: bool) -> (r: Result<
        GrokParser,
        RunError,
    >)
        ensures
            r is Ok <==> grok_compiles(
                spec_catalog_defaults(aliases, no_patterns),
                spec_catalog_aliases(aliases),
                pattern@,
            ),
            r matches Ok(p) ==> p.spec_defaults() == spec_catalog_defaults(aliases, no_patterns)
                && p.spec_aliases() == spec_catalog_aliases(aliases) && p.spec_template()
                == pattern@,
            r matches Err(e) ==> e is Compile,
    {
        let g = match aliases {
            Some(table) => {
                let mut g = if no_patterns {
                    catalog_empty()
                } else {
                    catalog_with_defaults()
                };
                let n = table.len();
                let mut i: usize = 0;
                proof {
                    assert(table.view_seq().take(0) =~= Seq::<(Seq<char>, Seq<char>)>::empty());
                }
                while i < n
                    invariant
                        i <= n,
                        n == table.view_seq().len(),
                        g.spec_defaults() == !no_patterns,
                        g.spec_aliases() == table.view_seq().take(i as int),
                    decreases n - i,
                {
                    let p = table.pair_at(i);
                    catalog_add(&mut g, p.0, p.1);
                    proof {
                        assert(table.view_seq().take(i as int).push(table.view_seq()[i as int])
                            =~= table.view_seq().take(i as int + 1));
                    }
                    i = i + 1;
                }
                proof {
                    assert(table.view_seq().take(n as int) =~= table.view_seq());
                }
                g
            },
            None => catalog_with_defaults(),
        };
        // Compile with every named fragment reference capturing under its
        // own name, so a template that is a bare fragment reference yields
        // that fragment's capture.  (Composite templates therefore also
        // capture their sub-fragment names, not only aliases.)
        match catalog_compile(&g, pattern) {
            Ok(p) => Ok(GrokParser { grok: g, pattern: p }),
            Err(msg) => Err(RunError::Compile(msg)),
        }
    }

    /// Extracts one line.  The matcher sees the line trimmed at its end,
    /// and its answer is a function of the catalog, the template and that
    /// trimmed line: captures become the sorted field map, no captures
    /// become a failure that keeps the raw line.  Either way exactly one
    /// counter is incremented: `parsed` on a match, `failed` otherwise.
    pub fn parse(&self, data: &str, stats: &mut Stats) -> (r: ParseOutcome)
        requires
            old(stats).parsed < u64::MAX,
            old(stats).failed < u64::MAX,
        ensures
            r.wf(),
            final(stats).parsed + final(stats).failed == old(stats).parsed + old(stats).failed
                + 1,
            match grok_captures(
                self.spec_defaults(),
                self.spec_aliases(),
                self.spec_template(),
                spec_trim_end(data@),
            ) {
                Some(cs) => (r matches ParseOutcome::Matched(fm) && fm.view_seq()
                    == spec_from_pairs(cs)),
                None => r is Failed,
            },
            match r {
                ParseOutcome::Matched(_) => final(stats).parsed == old(stats).parsed + 1
                    && final(stats).failed == old(stats).failed,
                ParseOutcome::Failed { reason, raw } => final(stats).failed == old(stats).failed
                    + 1 && final(stats).parsed == old(stats).parsed && raw@ == data@ && reason@
                    == no_match_reason(data@),
            },
    {
        let trimmed = trim_end(data);
        match matcher_match(&self.pattern, trimmed.as_str()) {
            Some(pairs) => {
                stats.parsed = stats.parsed + 1;
                ParseOutcome::Matched(FieldMap::from_pairs(&pairs))
            },
            None => {
                stats.failed = stats.failed + 1;
                let mut reason = String::from_str("No matches against data: \"");
                reason.append(trimmed.as_str());
                reason.append("\"");
                ParseOutcome::Failed { reason, raw: String::from_str(data) }
            },
        }
    }
}

} // verus!
