//! The alias loader: turns the lines of pattern definition files into a
//! name-to-definition table that seeds the pattern catalog before
//! compilation.
//!
//! Each non-empty line is split at its first space into a name and a
//! definition (leading whitespace of the definition trimmed); blank lines
//! are ignored; a non-empty line without a space is a fatal configuration
//! error.  Later entries overwrite earlier ones with the same name.

use vstd::prelude::*;
use crate::errors::RunError;
use crate::fields::{sorted_entries, spec_insert, spec_lookup, FieldMap};
use crate::text::{find_char, spec_trim_start, trim_start};

verus! {

/// The position of the first space, if any.
pub open spec fn spec_first_space(l: Seq<char>) -> Option<int>
    decreases l.len(),
{
    if l.len() == 0 {
        None
    } else if l[0] == ' ' {
        Some(0)
    } else {
        match spec_first_space(l.skip(1)) {
            None => None,
            Some(i) => Some(i + 1),
        }
    }
}

/// How one definition line splits: the name before the first space, the
/// definition after it with leading whitespace trimmed.
pub open spec fn spec_alias_split(l: Seq<char>) -> Option<(Seq<char>, Seq<char>)> {
    match spec_first_space(l) {
        None => None,
        Some(i) => Some((l.subrange(0, i), spec_trim_start(l.skip(i)))),
    }
}

/// The table that results from feeding definition lines, front to back,
/// into `t`: blank lines are skipped, and a non-empty line without a space
/// spoils the whole load.
pub open spec fn spec_load_aliases(
    t: Seq<(Seq<char>, Seq<char>)>,
    lines: Seq<Seq<char>>,
) -> Option<Seq<(Seq<char>, Seq<char>)>>
    decreases lines.len(),
{
    if lines.len() == 0 {
        Some(t)
    } else if lines[0].len() == 0 {
        spec_load_aliases(t, lines.skip(1))
    } else {
        match spec_alias_split(lines[0]) {
            None => None,
            Some(p) => spec_load_aliases(spec_insert(t, p.0, p.1), lines.skip(1)),
        }
    }
}

/// The views of a vector of lines.
pub open spec fn lines_view(v: Seq<String>) -> Seq<Seq<char>> {
    v.map_values(|s: String| s@)
}

/// The first-space characterization that a front-to-back scan yields
/// pins `spec_first_space` down.
proof fn lemma_first_space(l: Seq<char>, r: Option<int>)
    requires
        match r {
            Some(i) => 0 <= i < l.len() && l[i] == ' ' && forall|j: int| 0 <= j < i ==> l[j] != ' ',
            None => forall|j: int| 0 <= j < l.len() ==> l[j] != ' ',
        },
    ensures
        spec_first_space(l) == r,
    decreases l.len(),
{
    if l.len() == 0 {
    } else if l[0] == ' ' {
        assert(r == Some(0int));
    } else {
        let t = l.skip(1);
        assert(forall|j: int| 0 <= j < t.len() ==> #[trigger] t[j] == l[j + 1]);
        match r {
            Some(i) => {
                lemma_first_space(t, Some(i - 1));
            },
            None => {
                lemma_first_space(t, None);
            },
        }
    }
}

/// Splits one pattern definition line at its first space.
pub fn parse_alias_line(line: &str) -> (r: Result<(String, String), RunError>)
    ensures
        match r {
            Ok(p) => spec_alias_split(line@) == Some((p.0@, p.1@)),
            Err(e) => spec_alias_split(line@) is None && e is Config,
        },
{
    let len: usize = line.unicode_len();
    match find_char(line, ' ') {
        Some(i) => {
            let name = String::from_str(line.substring_char(0, i));
            let def = trim_start(line.substring_char(i, len));
            proof {
                lemma_first_space(line@, Some(i as int));
                assert(line@.subrange(i as int, len as int) =~= line@.skip(i as int));
            }
            Ok((name, def))
        },
        None => {
            proof {
                lemma_first_space(line@, None);
            }
            let mut msg = String::from_str("malformed pattern definition line: ");
            msg.append(line);
            Err(RunError::Config(msg))
        },
    }
}

/// The alias table: a name-to-definition mapping built once before pattern
/// compilation and immutable thereafter.
#[derive(Debug)]
pub struct AliasTable {
    entries: FieldMap,
}

impl AliasTable {
    /// The (name, definition) views, sorted by name.
    pub closed spec fn view_seq(self) -> Seq<(Seq<char>, Seq<char>)> {
        self.entries.view_seq()
    }

    pub open spec fn wf(self) -> bool {
        sorted_entries(self.view_seq())
    }

    /// A definition looked up by name.
    pub open spec fn spec_def_of(self, name: Seq<char>) -> Option<Seq<char>> {
        spec_lookup(self.view_seq(), name)
    }

    pub fn new() -> (r: AliasTable)
        ensures
            r.wf(),
            r.view_seq() =~= Seq::<(Seq<char>, Seq<char>)>::empty(),
    {
        AliasTable { entries: FieldMap::new() }
    }

    /// Binds a name to a definition, overwriting an earlier binding.
    pub fn insert(&mut self, name: String, def: String)
        requires
            old(self).wf(),
        ensures
            final(self).wf(),
            final(self).view_seq() == spec_insert(old(self).view_seq(), name@, def@),
    {
        self.entries.insert(name, def);
    }

    pub fn len(&self) -> (r: usize)
        ensures
            r == self.view_seq().len(),
    {
        self.entries.len()
    }

    /// A fresh copy of the entry at one position, for seeding the catalog.
    pub fn pair_at(&self, i: usize) -> (r: (String, String))
        requires
            i < self.view_seq().len(),
        ensures
            r.0@ == self.view_seq()[i as int].0,
            r.1@ == self.view_seq()[i as int].1,
    {
        (self.entries.key_at(i).clone(), self.entries.value_at(i).clone())
    }

    /// A definition looked up by name.
    pub fn get<'a>(&'a self, name: &str) -> (r: Option<&'a String>)
        ensures
            match r {
                Some(v) => self.spec_def_of(name@) == Some(v@),
                None => self.spec_def_of(name@) is None,
            },
    {
        self.entries.get(name)
    }
}

/// Reads an alias table from definition lines, in the order the files of
/// the patterns directory supplied them.
pub fn read_aliases(lines: &Vec<String>) -> (r: Result<AliasTable, RunError>)
    ensures
        match r {
            Ok(t) => t.wf() && spec_load_aliases(Seq::empty(), lines_view(lines@)) == Some(
                t.view_seq(),
            ),
            Err(e) => spec_load_aliases(Seq::empty(), lines_view(lines@)) is None && e is Config,
        },
{
    let ghost all = lines_view(lines@);
    let mut table = AliasTable::new();
    let mut i: usize = 0;
    proof {
        assert(all.skip(0) =~= all);
    }
    while i < lines.len()
        invariant
            i <= lines.len(),
            all == lines_view(lines@),
            all.len() == lines.len(),
            table.wf(),
            spec_load_aliases(Seq::empty(), all) == spec_load_aliases(
                table.view_seq(),
                all.skip(i as int),
            ),
        decreases lines.len() - i,
    {
        proof {
            assert(all.skip(i as int)[0] == all[i as int]);
            assert(all[i as int] == lines@[i as int]@);
            assert(all.skip(i as int).skip(1) =~= all.skip(i as int + 1));
        }
        let line: &String = &lines[i];
        if line.as_str().unicode_len() > 0 {
            match parse_alias_line(line.as_str()) {
                Ok(p) => {
                    table.insert(p.0, p.1);
                },
                Err(e) => {
                    return Err(e);
                },
            }
        }
        i = i + 1;
    }
    proof {
        assert(all.skip(i as int).len() == 0);
    }
    Ok(table)
}

} // verus!
