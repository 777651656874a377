//! Name-list loader: parses the flat text files that name the critical
//! groups, critical programs and watched programs.  A non-blank line must
//! read `group:<name>` or `program:<name>`; anything else is a fatal
//! configuration error that the caller turns into a distinct non-zero
//! process exit.

use vstd::prelude::*;

use crate::strutil::{split_char, split_on_char, str_eq, trim_spec, trim_str};

verus! {

pub open spec fn group_key() -> Seq<char> {
    seq!['g', 'r', 'o', 'u', 'p']
}

pub open spec fn program_key() -> Seq<char> {
    seq!['p', 'r', 'o', 'g', 'r', 'a', 'm']
}

/// A line whose trimmed text is empty; the only permitted non-entry.
pub open spec fn is_blank_line(l: Seq<char>) -> bool {
    trim_spec(l).len() == 0
}

/// The entry a line carries: `(true, name)` for a group line,
/// `(false, name)` for a program line, nothing for bad syntax.
pub open spec fn parsed_entry(l: Seq<char>) -> Option<(bool, Seq<char>)> {
    let parts = split_char(trim_spec(l), ':');
    if parts.len() == 2 {
        let k = trim_spec(parts[0]);
        let v = trim_spec(parts[1]);
        if k == group_key() && v.len() > 0 {
            Some((true, v))
        } else if k == program_key() && v.len() > 0 {
            Some((false, v))
        } else {
            None
        }
    } else {
        None
    }
}

pub open spec fn line_ok(l: Seq<char>) -> bool {
    is_blank_line(l) || parsed_entry(l) is Some
}

/// Group names of the well-formed lines, in order.
pub open spec fn groups_of(lines: Seq<Seq<char>>) -> Seq<Seq<char>>
    decreases lines.len(),
{
    if lines.len() == 0 {
        Seq::<Seq<char>>::empty()
    } else {
        groups_of(lines.drop_last()) + (match parsed_entry(lines.last()) {
            Some(e) => if e.0 {
                seq![e.1]
            } else {
                Seq::<Seq<char>>::empty()
            },
            None => Seq::<Seq<char>>::empty(),
        })
    }
}

/// Program names of the well-formed lines, in order.
pub open spec fn programs_of(lines: Seq<Seq<char>>) -> Seq<Seq<char>>
    decreases lines.len(),
{
    if lines.len() == 0 {
        Seq::<Seq<char>>::empty()
    } else {
        programs_of(lines.drop_last()) + (match parsed_entry(lines.last()) {
            Some(e) => if e.0 {
                Seq::<Seq<char>>::empty()
            } else {
                seq![e.1]
            },
            None => Seq::<Seq<char>>::empty(),
        })
    }
}

/// Index of the first line that is neither blank nor a well-formed entry.
pub open spec fn first_bad_from(lines: Seq<Seq<char>>, i: int) -> Option<int>
    decreases lines.len() - i,
{
    if i < 0 || i >= lines.len() {
        None
    } else if line_ok(lines[i]) {
        first_bad_from(lines, i + 1)
    } else {
        Some(i)
    }
}

proof fn lemma_first_bad_stop(lines: Seq<Seq<char>>, j: int, i: int)
    requires
        0 <= j <= i < lines.len(),
        forall|k: int| j <= k < i ==> line_ok(#[trigger] lines[k]),
        !line_ok(lines[i]),
    ensures
        first_bad_from(lines, j) == Some(i),
    decreases i - j,
{
    if j < i {
        lemma_first_bad_stop(lines, j + 1, i);
    }
}

proof fn lemma_first_bad_none(lines: Seq<Seq<char>>, j: int)
    requires
        0 <= j <= lines.len(),
        forall|k: int| j <= k < lines.len() ==> line_ok(#[trigger] lines[k]),
    ensures
        first_bad_from(lines, j) == None::<int>,
    decreases lines.len() - j,
{
    if j < lines.len() {
        lemma_first_bad_none(lines, j + 1);
    }
}

/// Why a line was refused, mirroring the two distinct fatal exits of the
/// loader: a line that is not one `key:value` pair, and a pair whose key
/// is neither `group` nor `program` or whose name is empty.
#[derive(Debug)]
pub enum NameListError {
    BadShape { line: usize },
    BadEntry { line: usize },
}

impl NameListError {
    /// The distinct non-zero status the process exits with.
    pub fn exit_code(&self) -> (r: i32)
        ensures
            r == 5 <==> self is BadShape,
            r == 6 <==> self is BadEntry,
    {
        match self {
            NameListError::BadShape { .. } => 5,
            NameListError::BadEntry { .. } => 6,
        }
    }

    /// The line the error names.
    pub open spec fn spec_line(&self) -> int {
        match self {
            NameListError::BadShape { line } => *line as int,
            NameListError::BadEntry { line } => *line as int,
        }
    }
}

pub open spec fn lines_view(s: Seq<String>) -> Seq<Seq<char>> {
    s.map_values(|l: String| l@)
}

/// Parses the lines of a critical- or watched-process file into its group
/// names and program names, in file order.  Fails on the first line that
/// is neither blank nor a well-formed entry, saying which line and which
/// of the two faults it shows.
pub fn parse_group_and_process_list(lines: &Vec<String>) -> (r: Result<
    (Vec<String>, Vec<String>),
    NameListError,
>)
    ensures
        match r {
            Ok(gp) => {
                &&& first_bad_from(lines_view(lines@), 0) == None::<int>
                &&& gp.0@.map_values(|l: String| l@) == groups_of(lines_view(lines@))
                &&& gp.1@.map_values(|l: String| l@) == programs_of(lines_view(lines@))
            },
            Err(e) => {
                &&& first_bad_from(lines_view(lines@), 0) == Some(e.spec_line())
                &&& (e is BadShape <==> split_char(
                    trim_spec(lines_view(lines@)[e.spec_line()]),
                    ':',
                ).len() != 2)
            },
        },
{
    let ghost lv = lines_view(lines@);
    let n: usize = lines.len();
    let mut groups: Vec<String> = Vec::new();
    let mut programs: Vec<String> = Vec::new();
    let mut i: usize = 0;
    proof {
        reveal_strlit("group");
        reveal_strlit("program");
    }
    while i < n
        invariant
            n == lines@.len(),
            0 <= i <= n,
            lv == lines_view(lines@),
            lv.len() == n,
            "group"@ =~= group_key() && "program"@ =~= program_key(),
            forall|k: int| 0 <= k < i ==> line_ok(#[trigger] lv[k]),
            groups@.map_values(|l: String| l@) == groups_of(lv.take(i as int)),
            programs@.map_values(|l: String| l@) == programs_of(lv.take(i as int)),
        decreases n - i,
    {
        let line: &String = &lines[i];
        proof {
            assert(lv[i as int] == line@);
            assert(lv.take(i as int + 1).drop_last() =~= lv.take(i as int));
            assert(lv.take(i as int + 1).last() == lv[i as int]);
        }
        let t = trim_str(line.as_str());
        if t.as_str().unicode_len() == 0 {
            proof {
                assert(groups_of(lv.take(i as int + 1)) =~= groups_of(lv.take(i as int)));
                assert(programs_of(lv.take(i as int + 1)) =~= programs_of(lv.take(i as int)));
            }
            i = i + 1;
            continue;
        }
        let parts = split_on_char(t.as_str(), ':');
        proof {
            assert(parts@.map_values(|p: String| p@) == split_char(trim_spec(line@), ':'));
        }
        if parts.len() != 2 {
            proof {
                assert(!line_ok(lv[i as int]));
                lemma_first_bad_stop(lv, 0, i as int);
            }
            return Err(NameListError::BadShape { line: i });
        }
        let key = trim_str(parts[0].as_str());
        let value = trim_str(parts[1].as_str());
        proof {
            assert(parts@.map_values(|p: String| p@)[0] == parts@[0]@);
            assert(parts@.map_values(|p: String| p@)[1] == parts@[1]@);
        }
        let value_len: usize = value.as_str().unicode_len();
        if str_eq(key.as_str(), "group") && value_len > 0 {
            groups.push(value);
            proof {
                assert(groups@.map_values(|l: String| l@) =~= groups_of(lv.take(i as int + 1)));
                assert(programs_of(lv.take(i as int + 1)) =~= programs_of(lv.take(i as int)));
            }
        } else if str_eq(key.as_str(), "program") && value_len > 0 {
            programs.push(value);
            proof {
                assert(programs@.map_values(|l: String| l@) =~= programs_of(lv.take(i as int + 1)));
                assert(groups_of(lv.take(i as int + 1)) =~= groups_of(lv.take(i as int)));
            }
        } else {
            proof {
                assert(!line_ok(lv[i as int]));
                lemma_first_bad_stop(lv, 0, i as int);
            }
            return Err(NameListError::BadEntry { line: i });
        }
        i = i + 1;
    }
    proof {
        assert(lv.take(n as int) =~= lv);
        lemma_first_bad_none(lv, 0);
    }
    Ok((groups, programs))
}

/// Count of the non-blank lines.
pub open spec fn nonblank_count(lines: Seq<Seq<char>>) -> int
    decreases lines.len(),
{
    if lines.len() == 0 {
        0
    } else {
        nonblank_count(lines.drop_last()) + if is_blank_line(lines.last()) {
            0int
        } else {
            1int
        }
    }
}

/// A well-formed entry line is not blank: its trimmed text holds a colon.
proof fn lemma_entry_not_blank(l: Seq<char>)
    requires
        parsed_entry(l) is Some,
    ensures
        !is_blank_line(l),
{
    let t = trim_spec(l);
    if t.len() == 0 {
        assert(split_char(t, ':').len() == 1);
    }
}

/// The loader returns exactly one name per non-blank line of a well-formed
/// file, each on the side its prefix names, wherever the blank lines sit.
pub proof fn lemma_loader_counts(lines: Seq<Seq<char>>)
    requires
        forall|k: int| 0 <= k < lines.len() ==> line_ok(#[trigger] lines[k]),
    ensures
        groups_of(lines).len() + programs_of(lines).len() == nonblank_count(lines),
    decreases lines.len(),
{
    if lines.len() > 0 {
        assert forall|k: int| 0 <= k < lines.drop_last().len() implies line_ok(
            #[trigger] lines.drop_last()[k],
        ) by {
            assert(lines.drop_last()[k] == lines[k]);
        }
        lemma_loader_counts(lines.drop_last());
        let l = lines.last();
        assert(line_ok(l));
        if parsed_entry(l) is Some {
            lemma_entry_not_blank(l);
        } else {
            assert(is_blank_line(l));
            assert(groups_of(lines) =~= groups_of(lines.drop_last()));
            assert(programs_of(lines) =~= programs_of(lines.drop_last()));
        }
    }
}

/// Blank lines do not shift, add or drop any returned name: a file with a
/// blank line inserted anywhere loads to the same two lists.
pub proof fn lemma_loader_blank_placement(a: Seq<Seq<char>>, blank: Seq<char>, b: Seq<Seq<char>>)
    requires
        is_blank_line(blank),
    ensures
        groups_of(a + seq![blank] + b) == groups_of(a + b),
        programs_of(a + seq![blank] + b) == programs_of(a + b),
    decreases b.len(),
{
    if b.len() == 0 {
        assert(a + seq![blank] + b =~= a + seq![blank]);
        assert((a + seq![blank]).drop_last() =~= a);
        assert((a + seq![blank]).last() == blank);
        if parsed_entry(blank) is Some {
            lemma_entry_not_blank(blank);
        }
        assert(a + b =~= a);
        assert(groups_of(a + seq![blank]) =~= groups_of(a));
        assert(programs_of(a + seq![blank]) =~= programs_of(a));
    } else {
        lemma_loader_blank_placement(a, blank, b.drop_last());
        assert((a + seq![blank] + b).drop_last() =~= a + seq![blank] + b.drop_last());
        assert((a + b).drop_last() =~= a + b.drop_last());
        assert((a + seq![blank] + b).last() == b.last());
        assert((a + b).last() == b.last());
    }
}

} // verus!
