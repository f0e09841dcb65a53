//! Files of environment variables: one `KEY=VALUE` to a line.

use crate::text::{find_char, first_index, lemma_first_index, slice, to_chars, to_decimal, decimal, trim, trimmed};
use crate::utilities::{Error, ErrorKind};
use vstd::prelude::*;

verus! {

/// The variables of an environment, by name. A later assignment to a name
/// replaces an earlier one.
#[derive(Debug)]
pub struct EnvMap {
    entries: Vec<(String, String)>,
}

/// The map that a row of assignments leaves behind.
pub open spec fn assigned(e: Seq<(String, String)>) -> Map<Seq<char>, Seq<char>>
    decreases e.len(),
{
    if e.len() == 0 {
        Map::empty()
    } else {
        assigned(e.drop_last()).insert(e.last().0@, e.last().1@)
    }
}

/// The last assignment to a name decides its value.
pub proof fn lemma_assigned_last(e: Seq<(String, String)>, key: Seq<char>, i: int)
    requires
        0 <= i < e.len(),
        e[i].0@ == key,
        forall|j: int| i < j < e.len() ==> e[j].0@ != key,
    ensures
        assigned(e).contains_key(key),
        assigned(e)[key] == e[i].1@,
    decreases e.len(),
{
    if i < e.len() - 1 {
        lemma_assigned_last(e.drop_last(), key, i);
    }
}

/// A name that was never assigned has no value.
pub proof fn lemma_assigned_none(e: Seq<(String, String)>, key: Seq<char>)
    requires
        forall|j: int| 0 <= j < e.len() ==> e[j].0@ != key,
    ensures
        !assigned(e).contains_key(key),
    decreases e.len(),
{
    if e.len() > 0 {
        lemma_assigned_none(e.drop_last(), key);
    }
}

impl View for EnvMap {
    type V = Map<Seq<char>, Seq<char>>;

    closed spec fn view(&self) -> Map<Seq<char>, Seq<char>> {
        assigned(self.entries@)
    }
}

impl EnvMap {
    /// The assignments in the order in which they were made.
    pub closed spec fn log(&self) -> Seq<(String, String)> {
        self.entries@
    }

    /// The map is what its assignments leave behind.
    pub proof fn lemma_view(&self)
        ensures
            self@ == assigned(self.log()),
    {
    }

    /// An environment without variables.
    pub fn new() -> (m: EnvMap)
        ensures
            m@ == Map::<Seq<char>, Seq<char>>::empty(),
            m.log().len() == 0,
    {
        EnvMap { entries: Vec::new() }
    }

    /// Gives `key` the value `value`.
    pub fn insert(&mut self, key: String, value: String)
        ensures
            final(self)@ == old(self)@.insert(key@, value@),
            final(self).log() == old(self).log().push((key, value)),
    {
        proof {
            assert(self.entries@.push((key, value)).drop_last() =~= self.entries@);
        }
        self.entries.push((key, value));
    }

    /// The value of `key`, where it has one.
    pub fn get(&self, key: &str) -> (r: Option<String>)
        ensures
            match r {
                Some(v) => self@.contains_key(key@) && self@[key@] == v@,
                None => !self@.contains_key(key@),
            },
    {
        let wanted = String::from_str(key);
        let mut i: usize = self.entries.len();
        while i > 0
            invariant
                i <= self.entries.len(),
                wanted@ == key@,
                forall|j: int| i <= j < self.entries.len() ==> self.entries@[j].0@ != key@,
            decreases i,
        {
            i -= 1;
            if self.entries[i].0 == wanted {
                proof {
                    lemma_assigned_last(self.entries@, key@, i as int);
                }
                return Some(self.entries[i].1.clone());
            }
        }
        proof {
            lemma_assigned_none(self.entries@, key@);
        }
        None
    }

    /// The assignments in the order in which they were made; to set the
    /// variables of a process, make them in this order.
    pub fn entries(&self) -> (e: &Vec<(String, String)>)
        ensures
            e@ == self.log(),
    {
        &self.entries
    }
}

/// What one line of the file says.
pub enum EnvLine {
    /// Nothing: the line is blank or a comment.
    Skip,
    /// The variable named first has the value given second.
    Assign(Seq<char>, Seq<char>),
    /// The line is neither blank, nor a comment, nor an assignment.
    Invalid,
}

/// What a line says: nothing where, without the white space at its ends, it is
/// empty or begins with `#`; otherwise an assignment, split at its first `=`.
pub open spec fn env_line(line: Seq<char>) -> EnvLine {
    let t = trimmed(line);
    let k = first_index(t, '=');
    if t.len() == 0 || t[0] == '#' {
        EnvLine::Skip
    } else if 0 <= k < t.len() {
        EnvLine::Assign(t.take(k), t.skip(k + 1))
    } else {
        EnvLine::Invalid
    }
}

/// The variables that the lines assign, or the number of the first line, from
/// one, that is invalid.
pub open spec fn parsed(lines: Seq<Seq<char>>) -> Result<Map<Seq<char>, Seq<char>>, nat>
    decreases lines.len(),
{
    if lines.len() == 0 {
        Ok(Map::empty())
    } else {
        match parsed(lines.drop_last()) {
            Err(n) => Err(n),
            Ok(m) => match env_line(lines.last()) {
                EnvLine::Skip => Ok(m),
                EnvLine::Assign(k, v) => Ok(m.insert(k, v)),
                EnvLine::Invalid => Err(lines.len()),
            },
        }
    }
}

/// Where the lines are refused, the number is that of the first line that is
/// neither blank, nor a comment, nor an assignment; where they are taken, there
/// is no such line.
pub proof fn lemma_first_invalid_line(lines: Seq<Seq<char>>)
    ensures
        match parsed(lines) {
            Err(n) => 1 <= n <= lines.len() && env_line(lines[n - 1]) is Invalid && forall|k: int|
                0 <= k < n - 1 ==> !(env_line(#[trigger] lines[k]) is Invalid),
            Ok(_) => forall|k: int|
                0 <= k < lines.len() ==> !(env_line(#[trigger] lines[k]) is Invalid),
        },
    decreases lines.len(),
{
    if lines.len() > 0 {
        let before = lines.drop_last();
        lemma_first_invalid_line(before);
        assert forall|k: int| 0 <= k < before.len() implies before[k] == lines[k] by {}
        match parsed(before) {
            Err(n) => {
                assert(before[n - 1] == lines[n - 1]);
                assert forall|k: int| 0 <= k < n - 1 implies !(env_line(
                    #[trigger] lines[k],
                ) is Invalid) by {
                    assert(before[k] == lines[k]);
                }
            },
            Ok(_) => {
                assert forall|k: int| 0 <= k < lines.len() - 1 implies !(env_line(
                    #[trigger] lines[k],
                ) is Invalid) by {
                    assert(before[k] == lines[k]);
                }
            },
        }
    }
}

/// A blank line or a comment, wherever it stands among the lines, changes
/// nothing of what they assign.
pub proof fn lemma_skipped_line_changes_nothing(
    a: Seq<Seq<char>>,
    line: Seq<char>,
    b: Seq<Seq<char>>,
)
    requires
        env_line(line) is Skip,
    ensures
        parsed(a + seq![line] + b) is Ok <==> parsed(a + b) is Ok,
        parsed(a + b) is Ok ==> parsed(a + seq![line] + b) == parsed(a + b),
    decreases b.len(),
{
    let with = a + seq![line] + b;
    if b.len() == 0 {
        assert(with.drop_last() =~= a);
        assert(a + b =~= a);
    } else {
        assert(with.drop_last() =~= a + seq![line] + b.drop_last());
        assert((a + b).drop_last() =~= a + b.drop_last());
        lemma_skipped_line_changes_nothing(a, line, b.drop_last());
    }
}

/// The message for an invalid line: its number and the file.
pub open spec fn invalid_line_message(file_name: Seq<char>, line_no: nat) -> Seq<char> {
    "invalid line "@ + decimal(line_no) + " in file "@ + file_name
}

/// The variables that the lines of an environment file assign.
///
/// Fails, with a configuration error that names the file and the line, on the
/// first line that is neither blank, nor a comment, nor an assignment.
pub fn parse(file_name: String, lines: Vec<String>) -> (r: Result<EnvMap, Error>)
    ensures
        match parsed(crate::text::texts(lines@)) {
            Ok(m) => r is Ok && r->Ok_0@ == m,
            Err(n) => r is Err && r->Err_0.describes(
                ErrorKind::ConfigError,
                invalid_line_message(file_name@, n),
            ),
        },
{
    let ghost all = crate::text::texts(lines@);
    let mut items = EnvMap::new();
    let mut i: usize = 0;
    while i < lines.len()
        invariant
            i <= lines.len(),
            all == crate::text::texts(lines@),
            parsed(all.take(i as int)) == Ok::<Map<Seq<char>, Seq<char>>, nat>(items@),
        decreases lines.len() - i,
    {
        proof {
            assert(all.take(i + 1).drop_last() =~= all.take(i as int));
        }
        let l = trim(lines[i].as_str());
        let cs = to_chars(l.as_str());
        if cs.len() > 0 && cs[0] != '#' {
            let k = find_char(&cs, 0, '=');
            proof {
                assert(cs@.skip(0) =~= cs@);
                lemma_first_index(cs@, '=');
            }
            if k < cs.len() {
                let key = slice(l.as_str(), 0, k);
                let value = slice(l.as_str(), k + 1, cs.len());
                items.insert(key, value);
            } else {
                let mut message = String::from_str("invalid line ");
                message.append(to_decimal(i + 1).as_str());
                message.append(" in file ");
                message.append(file_name.as_str());
                proof {
                    lemma_invalid_stays(all, i + 1);
                }
                return Err(Error::new(ErrorKind::ConfigError, message));
            }
        }
        i += 1;
    }
    assert(all.take(lines.len() as int) =~= all);
    Ok(items)
}

/// Lines after the first invalid one do not change the outcome.
pub proof fn lemma_invalid_stays(lines: Seq<Seq<char>>, n: int)
    requires
        0 < n <= lines.len(),
        parsed(lines.take(n)) == Err::<Map<Seq<char>, Seq<char>>, nat>(n as nat),
    ensures
        parsed(lines) == Err::<Map<Seq<char>, Seq<char>>, nat>(n as nat),
    decreases lines.len(),
{
    if n < lines.len() {
        assert(lines.drop_last().take(n) =~= lines.take(n));
        lemma_invalid_stays(lines.drop_last(), n);
    } else {
        assert(lines.take(n) =~= lines);
    }
}

} // verus!
