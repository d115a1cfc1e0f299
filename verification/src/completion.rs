//! The completion index: the names that can start a command, and the
//! candidates it offers for a prefix.
use vstd::prelude::*;
use crate::text::{
    comes_before, lemma_precedes_total, lemma_precedes_transitive, precedes, same_text,
    starts_with,
};

verus! {

/// The kind of host the shell runs on, as far as executables are told apart.
#[derive(Clone, Copy, Debug, PartialEq, Eq, Structural)]
pub enum Host {
    /// Executables carry execute permission bits.
    Posix,
    /// Executables carry one of a few file extensions.
    Windows,
}

/// What the caller has found out about one entry of a directory of the
/// search path.
#[derive(Debug, PartialEq, Eq)]
pub struct PathEntry {
    /// The name of the entry, without its directory.
    pub name: String,
    /// The entry is a regular file.
    pub is_file: bool,
    /// The permission bits of the entry, on a host that has them.
    pub mode: u32,
    /// The extension of the name, without the dot, if it has one.
    pub extension: Option<String>,
}

/// A directory entry as mathematics.
pub struct PathEntryView {
    pub name: Seq<char>,
    pub is_file: bool,
    pub mode: u32,
    pub extension: Option<Seq<char>>,
}

impl DeepView for PathEntry {
    type V = PathEntryView;

    open spec fn deep_view(&self) -> PathEntryView {
        PathEntryView {
            name: self.name@,
            is_file: self.is_file,
            mode: self.mode,
            extension: self.extension.deep_view(),
        }
    }
}

impl View for PathEntry {
    type V = PathEntryView;

    open spec fn view(&self) -> PathEntryView {
        self.deep_view()
    }
}

/// Whether `text` spells a word of three letters, in lower or upper case or
/// mixed.
pub open spec fn spells(text: Seq<char>, lower: (char, char, char), upper: (char, char, char)) -> bool {
    &&& text.len() == 3
    &&& (text[0] == lower.0 || text[0] == upper.0)
    &&& (text[1] == lower.1 || text[1] == upper.1)
    &&& (text[2] == lower.2 || text[2] == upper.2)
}

/// Whether an extension marks an executable: `exe`, `bat` or `cmd`, in any
/// case.
pub open spec fn executable_extension(extension: Seq<char>) -> bool {
    ||| spells(extension, ('e', 'x', 'e'), ('E', 'X', 'E'))
    ||| spells(extension, ('b', 'a', 't'), ('B', 'A', 'T'))
    ||| spells(extension, ('c', 'm', 'd'), ('C', 'M', 'D'))
}

/// Whether an entry is an executable: a regular file that, on a POSIX host,
/// has any of the three execute bits set, or, on a Windows host, has an
/// executable extension.
pub open spec fn qualifies(entry: PathEntryView, host: Host) -> bool {
    entry.is_file && match host {
        Host::Posix => entry.mode & 0o111 != 0,
        Host::Windows => entry.extension matches Some(extension) && executable_extension(
            extension,
        ),
    }
}

fn is_executable_extension(extension: &str) -> (r: bool)
    ensures
        r == executable_extension(extension@),
{
    let c = crate::text::chars_of(extension);
    if c.len() != 3 {
        return false;
    }
    ((c[0] == 'e' || c[0] == 'E') && (c[1] == 'x' || c[1] == 'X') && (c[2] == 'e' || c[2] == 'E'))
        || ((c[0] == 'b' || c[0] == 'B') && (c[1] == 'a' || c[1] == 'A') && (c[2] == 't' || c[2]
        == 'T')) || ((c[0] == 'c' || c[0] == 'C') && (c[1] == 'm' || c[1] == 'M') && (c[2] == 'd'
        || c[2] == 'D'))
}

/// Whether an entry is an executable on the given host.
pub fn is_executable(entry: &PathEntry, host: Host) -> (r: bool)
    ensures
        r == qualifies(entry@, host),
{
    if !entry.is_file {
        return false;
    }
    match host {
        Host::Posix => entry.mode & 0o111 != 0,
        Host::Windows => match &entry.extension {
            Some(extension) => is_executable_extension(extension.as_str()),
            None => false,
        },
    }
}

/// Whether `name` is the name of an executable among the entries.
pub open spec fn names_executable(entries: Seq<PathEntryView>, host: Host, name: Seq<char>) -> bool {
    exists|i: int| 0 <= i < entries.len() && qualifies(#[trigger] entries[i], host) && entries[i].name == name
}

/// The names of the executables among the entries of the directories of the
/// search path: every such name once, whatever the number of directories
/// that hold it.
pub fn get_executables(entries: &Vec<PathEntry>, host: Host) -> (names: Vec<String>)
    ensures
        names.deep_view().no_duplicates(),
        forall|name: Seq<char>|
            names.deep_view().contains(name) <==> names_executable(entries.deep_view(), host, name),
{
    let mut names: Vec<String> = Vec::new();
    let mut i: usize = 0;
    while i < entries.len()
        invariant
            i <= entries.len(),
            names.deep_view().no_duplicates(),
            forall|name: Seq<char>|
                names.deep_view().contains(name) <==> names_executable(
                    entries.deep_view().take(i as int),
                    host,
                    name,
                ),
        decreases entries.len() - i,
    {
        let ghost all = entries.deep_view();
        let ghost before = names.deep_view();
        let entry = &entries[i];
        assert(all[i as int] == entry@);
        let fresh = is_executable(entry, host) && !crate::text::contains(
            &names,
            entry.name.as_str(),
        );
        if fresh {
            names.push(entry.name.clone());
            assert(names.deep_view() =~= before.push(entry@.name));
        }
        proof {
            let now = names.deep_view();
            let shorter = all.take(i as int);
            let longer = all.take(i + 1);
            assert(longer[i as int] == entry@);
            assert forall|name: Seq<char>| now.contains(name) <==> names_executable(
                longer,
                host,
                name,
            ) by {
                if now.contains(name) {
                    let j = choose|j: int| 0 <= j < now.len() && now[j] == name;
                    if j < before.len() {
                        assert(before[j] == name);
                        assert(before.contains(name));
                        assert(names_executable(shorter, host, name));
                        let k = choose|k: int|
                            0 <= k < shorter.len() && qualifies(#[trigger] shorter[k], host)
                                && shorter[k].name == name;
                        assert(longer[k] == shorter[k]);
                    }
                }
                if names_executable(longer, host, name) {
                    let k = choose|k: int|
                        0 <= k < longer.len() && qualifies(#[trigger] longer[k], host)
                            && longer[k].name == name;
                    if k < i {
                        assert(shorter[k] == longer[k]);
                        assert(names_executable(shorter, host, name));
                        assert(before.contains(name));
                        let j = choose|j: int| 0 <= j < before.len() && before[j] == name;
                        assert(now[j] == name);
                    } else if fresh {
                        assert(now[before.len() as int] == name);
                    } else {
                        assert(before.contains(name));
                    }
                }
            }
        }
        i += 1;
    }
    assert(entries.deep_view().take(entries.len() as int) =~= entries.deep_view());
    names
}

/// The names are in ascending order, each before all that follow it.
pub open spec fn ascending(names: Seq<Seq<char>>) -> bool {
    forall|i: int, j: int| 0 <= i < j < names.len() ==> precedes(#[trigger] names[i], #[trigger] names[j])
}

/// `names` lists the candidates of an index for a prefix: every name of the
/// index that begins with the prefix, and no other, in ascending order.
pub open spec fn lists_candidates(
    index: Set<Seq<char>>,
    prefix: Seq<char>,
    names: Seq<Seq<char>>,
) -> bool {
    &&& ascending(names)
    &&& forall|name: Seq<char>|
        names.contains(name) <==> index.contains(name) && prefix.is_prefix_of(name)
}

/// `offer` is what the index offers for a prefix: the list of the candidates;
/// but where there is exactly one candidate, that one with a space after it.
pub open spec fn is_completion(
    index: Set<Seq<char>>,
    prefix: Seq<char>,
    offer: Seq<Seq<char>>,
) -> bool {
    if offer.len() == 1 {
        &&& offer[0].len() > 0
        &&& offer[0].last() == ' '
        &&& lists_candidates(index, prefix, seq![offer[0].drop_last()])
    } else {
        lists_candidates(index, prefix, offer)
    }
}

fn insert_ascending(names: &mut Vec<String>, name: &String)
    requires
        ascending(old(names).deep_view()),
    ensures
        ascending(final(names).deep_view()),
        forall|other: Seq<char>|
            final(names).deep_view().contains(other) <==> old(names).deep_view().contains(other)
                || other == name@,
{
    let ghost before = names.deep_view();
    let mut at: usize = 0;
    while at < names.len() && comes_before(names[at].as_str(), name.as_str())
        invariant
            at <= names.len(),
            names.deep_view() == before,
            forall|k: int| 0 <= k < at ==> precedes(#[trigger] before[k], name@),
        decreases names.len() - at,
    {
        at += 1;
    }
    if at < names.len() && same_text(names[at].as_str(), name.as_str()) {
        assert(before[at as int] == name@);
        return ;
    }
    names.insert(at, name.clone());
    proof {
        let now = names.deep_view();
        assert(now =~= before.insert(at as int, name@));
        if at < before.len() {
            lemma_precedes_total(before[at as int], name@);
        }
        assert forall|i: int, j: int| 0 <= i < j < now.len() implies precedes(
            #[trigger] now[i],
            #[trigger] now[j],
        ) by {
            if j < at {
                assert(now[i] == before[i] && now[j] == before[j]);
            } else if j == at {
                assert(now[i] == before[i]);
            } else if i == at {
                assert(now[j] == before[j - 1]);
                if j - 1 > at {
                    assert(precedes(before[at as int], before[j - 1]));
                    lemma_precedes_transitive(name@, before[at as int], before[j - 1]);
                }
            } else if i < at {
                assert(now[i] == before[i] && now[j] == before[j - 1]);
            } else {
                assert(now[i] == before[i - 1] && now[j] == before[j - 1]);
            }
        }
        assert forall|other: Seq<char>| now.contains(other) <==> before.contains(other) || other
            == name@ by {
            if now.contains(other) {
                let k = choose|k: int| 0 <= k < now.len() && now[k] == other;
                if k < at {
                    assert(before[k] == other);
                } else if k > at {
                    assert(before[k - 1] == other);
                }
            }
            if before.contains(other) {
                let k = choose|k: int| 0 <= k < before.len() && before[k] == other;
                if k < at {
                    assert(now[k] == other);
                } else {
                    assert(now[k + 1] == other);
                }
            }
            if other == name@ {
                assert(now[at as int] == other);
            }
        }
    }
}

/// The completion index: a set of names, the executables on the search path
/// and the built-ins together.
pub struct ShellCompleter {
    commands: Vec<String>,
}

impl View for ShellCompleter {
    type V = Set<Seq<char>>;

    closed spec fn view(&self) -> Set<Seq<char>> {
        self.commands.deep_view().to_set()
    }
}

impl ShellCompleter {
    /// The index of the given executables and built-ins.
    pub fn new(executables: Vec<String>, builtin: &Vec<String>) -> (index: ShellCompleter)
        ensures
            index@ == executables.deep_view().to_set().union(builtin.deep_view().to_set()),
    {
        let mut commands = executables;
        let ghost first = commands.deep_view();
        let mut i: usize = 0;
        assert(builtin.deep_view().take(0) =~= Seq::<Seq<char>>::empty());
        assert(first + Seq::<Seq<char>>::empty() =~= first);
        while i < builtin.len()
            invariant
                i <= builtin.len(),
                commands.deep_view() == first + builtin.deep_view().take(i as int),
            decreases builtin.len() - i,
        {
            let ghost before = commands.deep_view();
            commands.push(builtin[i].clone());
            assert(commands.deep_view() =~= before.push(builtin[i as int]@));
            assert(commands.deep_view() =~= first + builtin.deep_view().take(i + 1));
            i += 1;
        }
        proof {
            let second = builtin.deep_view();
            assert(second.take(second.len() as int) =~= second);
            assert forall|name: Seq<char>| #[trigger]
                (first + second).to_set().contains(name) <==> first.to_set().union(
                    second.to_set(),
                ).contains(name) by {
                if (first + second).contains(name) {
                    let k = choose|k: int| 0 <= k < (first + second).len() && (first + second)[k]
                        == name;
                    if k < first.len() {
                        assert(first[k] == name);
                    } else {
                        assert(second[k - first.len()] == name);
                    }
                }
                if first.contains(name) {
                    let k = choose|k: int| 0 <= k < first.len() && first[k] == name;
                    assert((first + second)[k] == name);
                }
                if second.contains(name) {
                    let k = choose|k: int| 0 <= k < second.len() && second[k] == name;
                    assert((first + second)[k + first.len()] == name);
                }
            }
            assert((first + second).to_set() =~= first.to_set().union(second.to_set()));
        }
        ShellCompleter { commands }
    }

    /// What the index offers to complete `line`: the position in the line
    /// from which the offer replaces it, always 0, and the candidates. These
    /// are the names of the index that begin with `line`, each once, in
    /// ascending order; a single candidate has a space appended.
    pub fn complete(&self, line: &str, pos: usize) -> (offer: (usize, Vec<String>))
        ensures
            offer.0 == 0,
            is_completion(self@, line@, offer.1.deep_view()),
    {
        let mut found: Vec<String> = Vec::new();
        let ghost all = self.commands.deep_view();
        let mut i: usize = 0;
        while i < self.commands.len()
            invariant
                i <= self.commands.len(),
                all == self.commands.deep_view(),
                ascending(found.deep_view()),
                forall|name: Seq<char>|
                    found.deep_view().contains(name) <==> all.take(i as int).contains(name)
                        && line@.is_prefix_of(name),
            decreases self.commands.len() - i,
        {
            let ghost before = found.deep_view();
            let name = &self.commands[i];
            if starts_with(name.as_str(), line) {
                insert_ascending(&mut found, name);
            }
            proof {
                let now = found.deep_view();
                assert(all[i as int] == name@);
                assert forall|other: Seq<char>| now.contains(other) <==> all.take(
                    i + 1,
                ).contains(other) && line@.is_prefix_of(other) by {
                    let shorter = all.take(i as int);
                    let longer = all.take(i + 1);
                    if longer.contains(other) {
                        let k = choose|k: int| 0 <= k < longer.len() && longer[k] == other;
                        if k < i {
                            assert(shorter[k] == other);
                        }
                    }
                    if shorter.contains(other) {
                        let k = choose|k: int| 0 <= k < shorter.len() && shorter[k] == other;
                        assert(longer[k] == other);
                    }
                    if other == name@ {
                        assert(longer[i as int] == other);
                    }
                }
            }
            i += 1;
        }
        assert(all.take(all.len() as int) =~= all);
        if found.len() == 1 {
            let ghost only = found.deep_view();
            match found.pop() {
                Some(single) => {
                    let mut single = single;
                    single.push(' ');
                    found.push(single);
                    proof {
                        let now = found.deep_view();
                        assert(now.len() == 1);
                        assert(now[0] == only[0].push(' '));
                        assert(now[0].drop_last() =~= only[0]);
                        assert(seq![now[0].drop_last()] =~= only);
                    }
                },
                None => {},
            }
        }
        (0, found)
    }
}

/// An index offers one thing for a prefix and no other: two lists of its
/// candidates are the same list.
pub proof fn lemma_candidates_unique(
    index: Set<Seq<char>>,
    prefix: Seq<char>,
    a: Seq<Seq<char>>,
    b: Seq<Seq<char>>,
)
    requires
        lists_candidates(index, prefix, a),
        lists_candidates(index, prefix, b),
    ensures
        a == b,
    decreases a.len(),
{
    if a.len() == 0 {
        if b.len() > 0 {
            assert(b.contains(b[0]));
        }
        assert(a =~= b);
    } else if b.len() == 0 {
        assert(a.contains(a[0]));
    } else {
        let x = a.last();
        let y = b.last();
        assert(a.contains(x));
        assert(b.contains(y));
        let i = choose|i: int| 0 <= i < b.len() && b[i] == x;
        let j = choose|j: int| 0 <= j < a.len() && a[j] == y;
        if x != y {
            crate::text::lemma_precedes_irreflexive(x);
            assert(precedes(x, y));
            assert(precedes(y, x));
            lemma_precedes_transitive(x, y, x);
        }
        let rest = index.remove(x);
        lemma_without_last(index, prefix, a);
        lemma_without_last(index, prefix, b);
        lemma_candidates_unique(rest, prefix, a.drop_last(), b.drop_last());
        assert(a =~= a.drop_last().push(x));
        assert(b =~= b.drop_last().push(y));
    }
}

/// A list of candidates without its last name lists the candidates of the
/// index without that name.
proof fn lemma_without_last(index: Set<Seq<char>>, prefix: Seq<char>, names: Seq<Seq<char>>)
    requires
        lists_candidates(index, prefix, names),
        names.len() > 0,
    ensures
        lists_candidates(index.remove(names.last()), prefix, names.drop_last()),
{
    let rest = names.drop_last();
    let last = names.last();
    crate::text::lemma_precedes_irreflexive(last);
    assert forall|name: Seq<char>| rest.contains(name) <==> index.remove(last).contains(name)
        && prefix.is_prefix_of(name) by {
        if rest.contains(name) {
            let k = choose|k: int| 0 <= k < rest.len() && rest[k] == name;
            assert(names[k] == name);
            assert(names.contains(name));
            assert(precedes(names[k], names[names.len() - 1]));
        }
        if index.remove(last).contains(name) && prefix.is_prefix_of(name) {
            assert(names.contains(name));
            let k = choose|k: int| 0 <= k < names.len() && names[k] == name;
            assert(rest[k] == name);
        }
    }
    assert forall|i: int, j: int| 0 <= i < j < rest.len() implies precedes(
        #[trigger] rest[i],
        #[trigger] rest[j],
    ) by {
        assert(rest[i] == names[i] && rest[j] == names[j]);
    }
}

} // verus!
