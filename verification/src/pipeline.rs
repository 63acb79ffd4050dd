//! The control loop's verified core: one step per input line, from raw
//! text to routed output writes.
//!
//! Invariants carried across a run: every line consumed is counted in
//! exactly one of the two statistics counters; every record is routed to
//! exactly one channel; and the CSV column order, fixed by the first
//! successfully matched record, never changes afterwards — the header is
//! written once, before any data row, and never again.

use vstd::prelude::*;
use crate::alias::lines_view;
use crate::catalog::grok_captures;
use crate::fields::{spec_from_pairs, FieldMap};
use crate::parser::{no_match_reason, GrokParser, ParseOutcome};
use crate::render::{
    csv_row, entry_keys, entry_values, json_of_entries, json_of_stats, render_csv_cells,
    OutputFormat,
};
use crate::sink::{failure_write, success_write, Output, SinkWrite};
use crate::stats::Stats;
use crate::text::{spec_dec, spec_trim_end};

verus! {

/// The output lines one consumed line owes, and the column order after
/// it, as (success-channel?, text) pairs: a failure's reason on the
/// failure channel; a matched record's rendering on the success channel,
/// preceded in CSV mode — when no column order exists yet — by the header
/// of its sorted field names, which then becomes the column order.
pub open spec fn spec_step_writes(
    format: OutputFormat,
    cols: Option<Seq<Seq<char>>>,
    caps: Option<Seq<(Seq<char>, Seq<char>)>>,
    line: Seq<char>,
) -> (Seq<(bool, Seq<char>)>, Option<Seq<Seq<char>>>) {
    match caps {
        None => (seq![(false, no_match_reason(line))], cols),
        Some(cs) => {
            let mv = spec_from_pairs(cs);
            match format {
                OutputFormat::Json => (seq![(true, json_of_entries(mv))], cols),
                OutputFormat::Csv => match cols {
                    None => (
                        seq![
                            (true, csv_row(entry_keys(mv))),
                            (true, csv_row(entry_values(mv))),
                        ],
                        Some(entry_keys(mv)),
                    ),
                    Some(_) => (seq![(true, csv_row(entry_values(mv)))], cols),
                },
            }
        },
    }
}

/// The routed writes realize the (channel, text) model, in order.
pub open spec fn writes_match(o: Output, ws: Seq<SinkWrite>, model: Seq<(bool, Seq<char>)>) -> bool {
    ws.len() == model.len() && forall|i: int| 0 <= i < ws.len() ==> (if model[i].0 {
        success_write(o, #[trigger] ws[i], model[i].1)
    } else {
        failure_write(o, ws[i], model[i].1)
    })
}

/// The output lines a whole batch owes, front to back, threading the
/// column order through, with each line's captures the named answer of
/// the matcher on the end-trimmed line.
pub open spec fn spec_batch_writes(
    format: OutputFormat,
    cols: Option<Seq<Seq<char>>>,
    defaults: bool,
    aliases: Seq<(Seq<char>, Seq<char>)>,
    template: Seq<char>,
    lines: Seq<Seq<char>>,
) -> (Seq<(bool, Seq<char>)>, Option<Seq<Seq<char>>>)
    decreases lines.len(),
{
    if lines.len() == 0 {
        (Seq::empty(), cols)
    } else {
        let first = spec_step_writes(
            format,
            cols,
            grok_captures(defaults, aliases, template, spec_trim_end(lines[0])),
            lines[0],
        );
        let rest = spec_batch_writes(format, first.1, defaults, aliases, template, lines.skip(1));
        (first.0 + rest.0, rest.1)
    }
}

/// The per-run state threaded through the control loop.
pub struct Pipeline {
    parser: GrokParser,
    format: OutputFormat,
    output: Output,
    stats: Stats,
    columns: Option<Vec<String>>,
    lines_seen: Ghost<int>,
}

impl Pipeline {
    pub closed spec fn spec_format(self) -> OutputFormat {
        self.format
    }

    pub closed spec fn spec_output(self) -> Output {
        self.output
    }

    pub closed spec fn spec_stats(self) -> Stats {
        self.stats
    }

    /// Whether the extractor's catalog holds the built-in fragments.
    pub closed spec fn spec_defaults(self) -> bool {
        self.parser.spec_defaults()
    }

    /// The alias pairs the extractor's catalog was seeded with.
    pub closed spec fn spec_aliases(self) -> Seq<(Seq<char>, Seq<char>)> {
        self.parser.spec_aliases()
    }

    /// The template the extractor matches with.
    pub closed spec fn spec_template(self) -> Seq<char> {
        self.parser.spec_template()
    }

    /// The CSV column order, once derived: the sorted field names of the
    /// first successfully matched record of the run.
    pub closed spec fn spec_columns(self) -> Option<Seq<Seq<char>>> {
        match self.columns {
            Some(v) => Some(v@.map_values(|c: String| c@)),
            None => None,
        }
    }

    /// How many lines the run has consumed.
    pub closed spec fn lines_consumed(self) -> int {
        self.lines_seen@
    }

    /// The run invariant.  No line is dropped or double-counted: the
    /// lines consumed are exactly `parsed + failed`.  A column order
    /// exists exactly from the first match on, and only in CSV mode.
    pub open spec fn wf(self) -> bool {
        &&& self.spec_stats().parsed + self.spec_stats().failed == self.lines_consumed()
        &&& (self.spec_format() is Csv ==> (self.spec_columns() is Some <==> self.spec_stats().parsed
            > 0))
        &&& (self.spec_format() is Json ==> self.spec_columns() is None)
    }

    pub fn new(parser: GrokParser, format: OutputFormat, output: Output) -> (r: Pipeline)
        ensures
            r.wf(),
            r.spec_format() == format,
            r.spec_output() == output,
            r.spec_stats().parsed == 0,
            r.spec_stats().failed == 0,
            r.lines_consumed() == 0,
            r.spec_columns() is None,
            r.spec_defaults() == parser.spec_defaults(),
            r.spec_aliases() == parser.spec_aliases(),
            r.spec_template() == parser.spec_template(),
    {
        Pipeline {
            parser,
            format,
            output,
            stats: Stats::new(),
            columns: None,
            lines_seen: Ghost(0),
        }
    }

    /// The final statistics, read once when the stream is exhausted.
    pub fn stats(&self) -> (r: Stats)
        ensures
            r == self.spec_stats(),
    {
        self.stats
    }

    /// Routes one parse outcome to the sink, rendering it in the selected
    /// format.  Exactly one channel receives the record: a failure's
    /// reason goes to the failure channel; a matched record is rendered
    /// and goes to the success channel, preceded — in CSV mode, on the
    /// first match of the run only — by the header of its sorted field
    /// names, which becomes the column order for the rest of the run.
    pub fn route_outcome(&mut self, outcome: ParseOutcome) -> (writes: Vec<SinkWrite>)
        ensures
            final(self).spec_format() == old(self).spec_format(),
            final(self).spec_output() == old(self).spec_output(),
            final(self).spec_stats() == old(self).spec_stats(),
            final(self).lines_consumed() == old(self).lines_consumed(),
            final(self).spec_defaults() == old(self).spec_defaults(),
            final(self).spec_aliases() == old(self).spec_aliases(),
            final(self).spec_template() == old(self).spec_template(),
            match outcome {
                ParseOutcome::Failed { reason, raw: _ } => final(self).spec_columns() == old(
                    self,
                ).spec_columns() && writes@.len() == 1 && failure_write(
                    old(self).spec_output(),
                    writes@[0],
                    reason@,
                ),
                ParseOutcome::Matched(fm) => match old(self).spec_format() {
                    OutputFormat::Json => final(self).spec_columns() == old(self).spec_columns()
                        && writes@.len() == 1 && success_write(
                        old(self).spec_output(),
                        writes@[0],
                        json_of_entries(fm.view_seq()),
                    ),
                    OutputFormat::Csv => {
                        if old(self).spec_columns() is None {
                            &&& final(self).spec_columns() == Some(entry_keys(fm.view_seq()))
                            &&& writes@.len() == 2
                            &&& success_write(
                                old(self).spec_output(),
                                writes@[0],
                                csv_row(entry_keys(fm.view_seq())),
                            )
                            &&& success_write(
                                old(self).spec_output(),
                                writes@[1],
                                csv_row(entry_values(fm.view_seq())),
                            )
                        } else {
                            &&& final(self).spec_columns() == old(self).spec_columns()
                            &&& writes@.len() == 1
                            &&& success_write(
                                old(self).spec_output(),
                                writes@[0],
                                csv_row(entry_values(fm.view_seq())),
                            )
                        }
                    },
                },
            },
    {
        let mut writes: Vec<SinkWrite> = Vec::new();
        match outcome {
            ParseOutcome::Failed { reason, raw: _ } => {
                writes.push(self.output.output(Err(reason)));
            },
            ParseOutcome::Matched(fm) => {
                match self.format {
                    OutputFormat::Csv => {
                        if self.columns.is_none() {
                            let keys = fm.keys();
                            let header = render_csv_cells(&keys);
                            proof {
                                assert(keys@.map_values(|c: String| c@) =~= entry_keys(
                                    fm.view_seq(),
                                ));
                            }
                            writes.push(self.output.output(Ok(header)));
                            self.columns = Some(keys);
                        }
                    },
                    OutputFormat::Json => {},
                }
                let text = self.format.handle_parsed(&fm);
                writes.push(self.output.output(Ok(text)));
            },
        }
        writes
    }

    /// Consumes one line: extract, count, render, route.  The matcher's
    /// answer on the end-trimmed line decides everything: captures grow
    /// `parsed` and produce exactly the success-channel writes of
    /// [`spec_step_writes`]; no captures grow `failed` and produce the
    /// one failure-channel write carrying the no-match reason.  A column
    /// order, once fixed, is never re-derived.
    pub fn step(&mut self, line: &str) -> (writes: Vec<SinkWrite>)
        requires
            old(self).wf(),
            old(self).lines_consumed() < u64::MAX,
        ensures
            final(self).wf(),
            final(self).spec_format() == old(self).spec_format(),
            final(self).spec_output() == old(self).spec_output(),
            final(self).spec_defaults() == old(self).spec_defaults(),
            final(self).spec_aliases() == old(self).spec_aliases(),
            final(self).spec_template() == old(self).spec_template(),
            final(self).lines_consumed() == old(self).lines_consumed() + 1,
            final(self).spec_stats().parsed + final(self).spec_stats().failed == old(
                self,
            ).spec_stats().parsed + old(self).spec_stats().failed + 1,
            old(self).spec_columns() matches Some(c) ==> final(self).spec_columns() == Some(c),
            ({
                let caps = grok_captures(
                    old(self).spec_defaults(),
                    old(self).spec_aliases(),
                    old(self).spec_template(),
                    spec_trim_end(line@),
                );
                let sw = spec_step_writes(
                    old(self).spec_format(),
                    old(self).spec_columns(),
                    caps,
                    line@,
                );
                &&& writes_match(old(self).spec_output(), writes@, sw.0)
                &&& final(self).spec_columns() == sw.1
                &&& (caps is Some ==> final(self).spec_stats().parsed == old(
                    self,
                ).spec_stats().parsed + 1 && final(self).spec_stats().failed == old(
                    self,
                ).spec_stats().failed)
                &&& (caps is None ==> final(self).spec_stats().failed == old(
                    self,
                ).spec_stats().failed + 1 && final(self).spec_stats().parsed == old(
                    self,
                ).spec_stats().parsed)
            }),
    {
        let mut st = self.stats;
        let outcome = self.parser.parse(line, &mut st);
        self.stats = st;
        proof {
            self.lines_seen@ = self.lines_seen@ + 1;
        }
        let ghost o = outcome;
        let writes = self.route_outcome(outcome);
        proof {
            let caps = grok_captures(
                old(self).spec_defaults(),
                old(self).spec_aliases(),
                old(self).spec_template(),
                spec_trim_end(line@),
            );
            let sw = spec_step_writes(
                old(self).spec_format(),
                old(self).spec_columns(),
                caps,
                line@,
            );
            match o {
                ParseOutcome::Matched(fm) => {
                    let cs = caps->Some_0;
                    assert(fm.view_seq() == spec_from_pairs(cs));
                    match old(self).spec_format() {
                        OutputFormat::Json => {
                            assert(sw.0[0] == (true, json_of_entries(fm.view_seq())));
                        },
                        OutputFormat::Csv => {
                            if old(self).spec_columns() is None {
                                assert(sw.0[0] == (true, csv_row(entry_keys(fm.view_seq()))));
                                assert(sw.0[1] == (true, csv_row(entry_values(fm.view_seq()))));
                            } else {
                                assert(sw.0[0] == (true, csv_row(entry_values(fm.view_seq()))));
                            }
                        },
                    }
                },
                ParseOutcome::Failed { reason, raw: _ } => {
                    assert(sw.0[0] == (false, no_match_reason(line@)));
                    assert(reason@ == no_match_reason(line@));
                },
            }
            assert(writes_match(old(self).spec_output(), writes@, sw.0));
        }
        writes
    }

    /// Consumes a batch of lines in order.  The counters account for
    /// every line, and the routed writes are exactly the in-order
    /// concatenation of the per-line routings of [`spec_batch_writes`],
    /// threading the CSV column order through.
    pub fn run_batch(&mut self, lines: &Vec<String>) -> (writes: Vec<SinkWrite>)
        requires
            old(self).wf(),
            old(self).lines_consumed() + lines@.len() <= u64::MAX,
        ensures
            final(self).wf(),
            final(self).spec_format() == old(self).spec_format(),
            final(self).spec_output() == old(self).spec_output(),
            final(self).lines_consumed() == old(self).lines_consumed() + lines@.len(),
            final(self).spec_stats().parsed + final(self).spec_stats().failed == old(
                self,
            ).spec_stats().parsed + old(self).spec_stats().failed + lines@.len(),
            ({
                let b = spec_batch_writes(
                    old(self).spec_format(),
                    old(self).spec_columns(),
                    old(self).spec_defaults(),
                    old(self).spec_aliases(),
                    old(self).spec_template(),
                    lines_view(lines@),
                );
                writes_match(old(self).spec_output(), writes@, b.0) && final(self).spec_columns()
                    == b.1
            }),
    {
        let ghost all = lines_view(lines@);
        let ghost full = spec_batch_writes(
            old(self).spec_format(),
            old(self).spec_columns(),
            old(self).spec_defaults(),
            old(self).spec_aliases(),
            old(self).spec_template(),
            all,
        );
        let mut writes: Vec<SinkWrite> = Vec::new();
        let ghost mut done_model: Seq<(bool, Seq<char>)> = Seq::empty();
        let mut i: usize = 0;
        proof {
            assert(all.skip(0) =~= all);
        }
        while i < lines.len()
            invariant
                i <= lines.len(),
                all == lines_view(lines@),
                all.len() == lines.len(),
                self.wf(),
                self.spec_format() == old(self).spec_format(),
                self.spec_output() == old(self).spec_output(),
                self.spec_defaults() == old(self).spec_defaults(),
                self.spec_aliases() == old(self).spec_aliases(),
                self.spec_template() == old(self).spec_template(),
                self.lines_consumed() == old(self).lines_consumed() + i,
                old(self).lines_consumed() + lines@.len() <= u64::MAX,
                writes_match(old(self).spec_output(), writes@, done_model),
                full == spec_batch_writes(
                    old(self).spec_format(),
                    old(self).spec_columns(),
                    old(self).spec_defaults(),
                    old(self).spec_aliases(),
                    old(self).spec_template(),
                    all,
                ),
                ({
                    let rest = spec_batch_writes(
                        old(self).spec_format(),
                        self.spec_columns(),
                        old(self).spec_defaults(),
                        old(self).spec_aliases(),
                        old(self).spec_template(),
                        all.skip(i as int),
                    );
                    full.0 == done_model + rest.0 && full.1 == rest.1
                }),
            decreases lines.len() - i,
        {
            proof {
                assert(all.skip(i as int)[0] == all[i as int]);
                assert(all[i as int] == lines@[i as int]@);
                assert(all.skip(i as int).skip(1) =~= all.skip(i as int + 1));
            }
            let ghost cols_before = self.spec_columns();
            let ghost w_prev = writes@;
            let mut w = self.step(lines[i].as_str());
            proof {
                let caps = grok_captures(
                    old(self).spec_defaults(),
                    old(self).spec_aliases(),
                    old(self).spec_template(),
                    spec_trim_end(all[i as int]),
                );
                let first = spec_step_writes(
                    old(self).spec_format(),
                    cols_before,
                    caps,
                    all[i as int],
                );
                assert(writes_match(old(self).spec_output(), w@, first.0));
                assert(writes_match(old(self).spec_output(), w_prev + w@, done_model + first.0))
                    by {
                    assert forall|j: int| 0 <= j < (w_prev + w@).len() implies (if (done_model
                        + first.0)[j].0 {
                        success_write(
                            old(self).spec_output(),
                            #[trigger] (w_prev + w@)[j],
                            (done_model + first.0)[j].1,
                        )
                    } else {
                        failure_write(
                            old(self).spec_output(),
                            (w_prev + w@)[j],
                            (done_model + first.0)[j].1,
                        )
                    }) by {
                        if j < w_prev.len() {
                            assert((w_prev + w@)[j] == w_prev[j]);
                            assert((done_model + first.0)[j] == done_model[j]);
                        } else {
                            assert((w_prev + w@)[j] == w@[j - w_prev.len()]);
                            assert((done_model + first.0)[j] == first.0[j - w_prev.len()]);
                        }
                    }
                }
                assert(done_model + first.0 + spec_batch_writes(
                    old(self).spec_format(),
                    self.spec_columns(),
                    old(self).spec_defaults(),
                    old(self).spec_aliases(),
                    old(self).spec_template(),
                    all.skip(i as int + 1),
                ).0 =~= (done_model + first.0) + spec_batch_writes(
                    old(self).spec_format(),
                    self.spec_columns(),
                    old(self).spec_defaults(),
                    old(self).spec_aliases(),
                    old(self).spec_template(),
                    all.skip(i as int + 1),
                ).0);
                done_model = done_model + first.0;
            }
            writes.append(&mut w);
            i = i + 1;
        }
        proof {
            assert(all.skip(i as int).len() == 0);
            assert(done_model + Seq::<(bool, Seq<char>)>::empty() =~= done_model);
        }
        writes
    }

    /// Renders and routes the final statistics, when the run asks for
    /// them: through the same renderer and sink as every other record, on
    /// the success channel.
    pub fn finish(&self, want_stats: bool) -> (writes: Vec<SinkWrite>)
        ensures
            !want_stats ==> writes@.len() == 0,
            want_stats ==> match self.spec_format() {
                OutputFormat::Json => writes@.len() == 1 && success_write(
                    self.spec_output(),
                    writes@[0],
                    json_of_stats(
                        self.spec_stats().parsed as nat,
                        self.spec_stats().failed as nat,
                    ),
                ),
                OutputFormat::Csv => writes@.len() == 2 && success_write(
                    self.spec_output(),
                    writes@[0],
                    csv_row(seq!["parsed"@, "failed"@]),
                ) && success_write(
                    self.spec_output(),
                    writes@[1],
                    csv_row(
                        seq![
                            spec_dec(self.spec_stats().parsed as nat),
                            spec_dec(self.spec_stats().failed as nat),
                        ],
                    ),
                ),
            },
    {
        let mut writes: Vec<SinkWrite> = Vec::new();
        if !want_stats {
            return writes;
        }
        let lines = self.format.handle_stats(&self.stats);
        let mut i: usize = 0;
        while i < lines.len()
            invariant
                i <= lines.len(),
                writes@.len() == i,
                forall|j: int| 0 <= j < i ==> success_write(
                    self.spec_output(),
                    #[trigger] writes@[j],
                    lines@[j]@,
                ),
            decreases lines.len() - i,
        {
            writes.push(self.output.output(Ok(lines[i].clone())));
            i = i + 1;
        }
        writes
    }
}

} // verus!
