//! The project lock file: which addons a project uses, in which version and
//! variant, and which of their commands have already run.

use vstd::prelude::*;
use vstd::string::*;

use crate::keyed::{first_index, has_key, lemma_first_index, lemma_first_index_step, unique_keys};
use crate::text::str_eq;

verus! {

/// The name of the lock file in a project root.
pub fn lock_file_name() -> (res: &'static str)
    ensures
        res@ == "oxide.lock"@,
{
    "oxide.lock"
}

/// One addon recorded in the lock file.
#[derive(Debug)]
pub struct LockEntry {
    pub id: String,
    pub version: String,
    pub variant: String,
    pub commands_executed: Vec<String>,
}

/// The lock file: the recorded addons, in insertion order.
#[derive(Debug)]
pub struct LockFile {
    pub addons: Vec<LockEntry>,
}

/// The mathematical content of a lock entry.
pub ghost struct EntryModel {
    pub id: Seq<char>,
    pub version: Seq<char>,
    pub variant: Seq<char>,
    pub commands: Seq<Seq<char>>,
}

/// The text of each string, in order.
pub open spec fn strings_view(v: Seq<String>) -> Seq<Seq<char>> {
    v.map_values(|s: String| s@)
}

impl View for LockEntry {
    type V = EntryModel;

    open spec fn view(&self) -> EntryModel {
        EntryModel {
            id: self.id@,
            version: self.version@,
            variant: self.variant@,
            commands: strings_view(self.commands_executed@),
        }
    }
}

impl View for LockFile {
    type V = Seq<EntryModel>;

    open spec fn view(&self) -> Seq<EntryModel> {
        self.addons@.map_values(|e: LockEntry| e@)
    }
}

/// The key of a lock entry: its addon id.
pub open spec fn entry_id() -> spec_fn(EntryModel) -> Seq<char> {
    |e: EntryModel| e.id
}

/// The entry that a lookup of `id` finds: the first with that id.
pub open spec fn lookup(s: Seq<EntryModel>, id: Seq<char>) -> Option<int> {
    first_index(s, entry_id(), id)
}

/// Whether the entry of `id` records `command` as executed.
pub open spec fn executed_spec(s: Seq<EntryModel>, id: Seq<char>, command: Seq<char>) -> bool {
    match lookup(s, id) {
        Some(i) => s[i].commands.contains(command),
        None => false,
    }
}

/// The recorded version of `id`.
pub open spec fn version_spec(s: Seq<EntryModel>, id: Seq<char>) -> Option<Seq<char>> {
    match lookup(s, id) {
        Some(i) => Some(s[i].version),
        None => None,
    }
}

/// The lock after recording `command` as executed for `id`: nothing changes
/// when there is no entry for `id` or the command is already recorded.
pub open spec fn mark_spec(s: Seq<EntryModel>, id: Seq<char>, command: Seq<char>) -> Seq<EntryModel> {
    match lookup(s, id) {
        Some(i) => if s[i].commands.contains(command) {
            s
        } else {
            s.update(i, EntryModel { commands: s[i].commands.push(command), ..s[i] })
        },
        None => s,
    }
}

/// The lock after inserting `e`, or replacing the entry with its id.
pub open spec fn upsert_spec(s: Seq<EntryModel>, e: EntryModel) -> Seq<EntryModel> {
    match lookup(s, e.id) {
        Some(i) => s.update(i, e),
        None => s.push(e),
    }
}

/// Whether any string of `v` equals `s`.
fn any_equals(v: &Vec<String>, s: &str) -> (res: bool)
    ensures
        res == strings_view(v@).contains(s@),
{
    let n = v.len();
    for i in 0..n
        invariant
            n == v@.len(),
            forall|j: int| 0 <= j < i ==> v@[j]@ != s@,
    {
        if str_eq(v[i].as_str(), s) {
            assert(strings_view(v@)[i as int] == s@);
            return true;
        }
    }
    assert forall|j: int| 0 <= j < strings_view(v@).len() implies strings_view(v@)[j] != s@ by {
        assert(strings_view(v@)[j] == v@[j]@);
    }
    false
}

impl Default for LockFile {
    /// An empty lock file.
    fn default() -> (res: Self)
        ensures
            res@ == Seq::<EntryModel>::empty(),
    {
        LockFile { addons: Vec::new() }
    }
}

impl LockFile {
    /// The index of the entry of `addon_id`, as `lookup` finds it.
    pub fn position(&self, addon_id: &str) -> (res: Option<usize>)
        ensures
            res matches Some(i) ==> lookup(self@, addon_id@) == Some(i as int) && i
                < self.addons@.len(),
            res is None ==> lookup(self@, addon_id@) is None,
    {
        proof {
            lemma_first_index(self@, entry_id(), addon_id@);
        }
        let n = self.addons.len();
        for i in 0..n
            invariant
                n == self.addons@.len(),
                lookup(self@.take(i as int), addon_id@) is None,
        {
            proof {
                lemma_first_index_step(self@, entry_id(), addon_id@, i as int);
            }
            if str_eq(self.addons[i].id.as_str(), addon_id) {
                proof {
                    lemma_first_index_step(self@, entry_id(), addon_id@, i as int);
                    let t = self@.take(i + 1);
                    lemma_first_index(self@, entry_id(), addon_id@);
                    lemma_first_index(t, entry_id(), addon_id@);
                    assert forall|j: int| 0 <= j < self@.len() && entry_id()(self@[j]) == addon_id@
                        implies j >= i by {
                        if j < i {
                            assert(t[j] == self@[j]);
                        }
                    }
                }
                return Some(i);
            }
        }
        proof {
            assert(self@.take(n as int) == self@);
        }
        None
    }

    /// Whether `command` has been recorded as executed for `addon_id`.
    pub fn is_command_executed(&self, addon_id: &str, command: &str) -> (res: bool)
        ensures
            res == executed_spec(self@, addon_id@, command@),
    {
        match self.position(addon_id) {
            Some(i) => {
                assert(self@[i as int] == self.addons@[i as int]@);
                any_equals(&self.addons[i].commands_executed, command)
            },
            None => false,
        }
    }

    /// The recorded version of `addon_id`.
    pub fn addon_version(&self, addon_id: &str) -> (res: Option<&str>)
        ensures
            match version_spec(self@, addon_id@) {
                Some(v) => res matches Some(r) && r@ == v,
                None => res is None,
            },
    {
        match self.position(addon_id) {
            Some(i) => {
                assert(self@[i as int] == self.addons@[i as int]@);
                Some(self.addons[i].version.as_str())
            },
            None => None,
        }
    }

    /// Records `command` as executed for `addon_id`, once; does nothing when
    /// the addon has no entry.
    pub fn mark_command_executed(&mut self, addon_id: &str, command: &str)
        ensures
            final(self)@ == mark_spec(old(self)@, addon_id@, command@),
    {
        match self.position(addon_id) {
            Some(i) => {
                assert(self@[i as int] == self.addons@[i as int]@);
                if !any_equals(&self.addons[i].commands_executed, command) {
                    let ghost before = self@;
                    let mut entry = self.addons.remove(i);
                    entry.commands_executed.push(String::from_str(command));
                    assert(strings_view(entry.commands_executed@) == before[i as int].commands.push(
                        command@,
                    ));
                    let ghost em = entry@;
                    self.addons.insert(i, entry);
                    assert(em == EntryModel { commands: before[i as int].commands.push(command@), ..before[i as int] });
                    assert(self@ =~= before.update(i as int, em));
                }
            },
            None => {},
        }
    }

    /// Inserts `entry`, or replaces the entry that has its id.
    pub fn upsert_entry(&mut self, entry: LockEntry)
        ensures
            final(self)@ == upsert_spec(old(self)@, entry@),
    {
        let key = entry.id.as_str();
        match self.position(key) {
            Some(i) => {
                let ghost before = self@;
                let ghost e = entry@;
                self.addons.set(i, entry);
                assert(self@ =~= before.update(i as int, e));
            },
            None => {
                let ghost before = self@;
                let ghost e = entry@;
                self.addons.push(entry);
                assert(self@ =~= before.push(e));
            },
        }
    }
}

/// After an entry is upserted, looking up its id gives its version, and
/// every other id is looked up as before.
pub proof fn law_upsert_then_lookup(s: Seq<EntryModel>, e: EntryModel, other: Seq<char>)
    requires
        other != e.id,
    ensures
        version_spec(upsert_spec(s, e), e.id) == Some(e.version),
        version_spec(upsert_spec(s, e), other) == version_spec(s, other),
        executed_spec(upsert_spec(s, e), other, e.id) == executed_spec(s, other, e.id),
{
    let t = upsert_spec(s, e);
    lemma_first_index(s, entry_id(), e.id);
    lemma_first_index(t, entry_id(), e.id);
    lemma_first_index(s, entry_id(), other);
    lemma_first_index(t, entry_id(), other);
    match lookup(s, e.id) {
        Some(i) => {
            assert(t[i].id == e.id);
            assert forall|j: int| 0 <= j < t.len() implies (t[j].id == other) == (s[j].id == other) by {
                if j != i {
                    assert(t[j] == s[j]);
                }
            }
        },
        None => {
            assert(t[s.len() as int] == e);
            assert forall|j: int| 0 <= j < s.len() implies t[j] == s[j] by {}
        },
    }
    match (lookup(s, other), lookup(t, other)) {
        (Some(a), Some(b)) => {
            if a < b {
                assert(t[a].id == other);
            } else if b < a {
                assert(s[b].id == other);
            }
            assert(t[a] == s[a]);
        },
        (Some(a), None) => {
            assert(t[a].id == other);
        },
        (None, Some(b)) => {
            assert(s[b].id == other);
        },
        (None, None) => {},
    }
}

/// After an entry is upserted, looking up its id finds exactly that entry,
/// in every field: its version, variant and executed commands replace
/// whatever was recorded for the id before.
pub proof fn law_upsert_then_entry(s: Seq<EntryModel>, e: EntryModel, command: Seq<char>)
    ensures
        lookup(upsert_spec(s, e), e.id) matches Some(i) && upsert_spec(s, e)[i] == e,
        executed_spec(upsert_spec(s, e), e.id, command) == e.commands.contains(command),
{
    let t = upsert_spec(s, e);
    lemma_first_index(s, entry_id(), e.id);
    lemma_first_index(t, entry_id(), e.id);
    match lookup(s, e.id) {
        Some(i) => {
            assert(t[i] == e);
            match lookup(t, e.id) {
                Some(k) => {
                    if k < i {
                        assert(t[k] == s[k]);
                    } else if i < k {
                        assert(t[i].id == e.id);
                    }
                },
                None => {
                    assert(t[i].id == e.id);
                },
            }
        },
        None => {
            assert(t[s.len() as int] == e);
            match lookup(t, e.id) {
                Some(k) => {
                    if k < s.len() {
                        assert(t[k] == s[k]);
                    }
                },
                None => {},
            }
        },
    }
}

/// A lookup finds the same index in two locks whose entries carry the same
/// ids in the same order.
proof fn lemma_lookup_same_ids(s: Seq<EntryModel>, t: Seq<EntryModel>, id: Seq<char>)
    requires
        s.len() == t.len(),
        forall|j: int| 0 <= j < s.len() ==> #[trigger] t[j].id == s[j].id,
    ensures
        lookup(t, id) == lookup(s, id),
{
    lemma_first_index(s, entry_id(), id);
    lemma_first_index(t, entry_id(), id);
    match (lookup(s, id), lookup(t, id)) {
        (Some(a), Some(b)) => {
            if a < b {
                assert(t[a].id == id);
            } else if b < a {
                assert(s[b].id == id);
            }
        },
        (Some(a), None) => {
            assert(t[a].id == id);
        },
        (None, Some(b)) => {
            assert(s[b].id == id);
        },
        (None, None) => {},
    }
}

/// Upserting an entry leaves the entry of every other id as it was, in
/// every field.
pub proof fn law_upsert_keeps_others(s: Seq<EntryModel>, e: EntryModel, other: Seq<char>)
    requires
        other != e.id,
    ensures
        match (lookup(s, other), lookup(upsert_spec(s, e), other)) {
            (Some(a), Some(b)) => upsert_spec(s, e)[b] == s[a],
            (None, None) => true,
            _ => false,
        },
{
    let t = upsert_spec(s, e);
    lemma_first_index(s, entry_id(), e.id);
    lemma_first_index(s, entry_id(), other);
    lemma_first_index(t, entry_id(), other);
    match lookup(s, e.id) {
        Some(i) => {
            assert forall|j: int| 0 <= j < s.len() implies #[trigger] t[j].id == s[j].id by {
                if j != i {
                    assert(t[j] == s[j]);
                }
            }
            lemma_lookup_same_ids(s, t, other);
            if let Some(a) = lookup(s, other) {
                assert(a != i);
                assert(t[a] == s[a]);
            }
        },
        None => {
            assert(t[s.len() as int] == e);
            assert forall|j: int| 0 <= j < s.len() implies t[j] == s[j] by {}
            match (lookup(s, other), lookup(t, other)) {
                (Some(a), Some(b)) => {
                    if a < b {
                        assert(t[a].id == other);
                    } else if b < a {
                        assert(s[b].id == other);
                    }
                },
                (Some(a), None) => {
                    assert(t[a].id == other);
                },
                (None, Some(b)) => {
                    if b < s.len() {
                        assert(s[b].id == other);
                    }
                },
                (None, None) => {},
            }
        },
    }
}

/// Marking a command changes nothing but that command's record: every entry
/// keeps its id, version and variant, and a command is recorded as executed
/// for an addon afterwards exactly when it was before, or it is the marked
/// command of the marked addon and that addon has an entry.
pub proof fn law_mark_changes_only_the_command(
    s: Seq<EntryModel>,
    id: Seq<char>,
    command: Seq<char>,
    other: Seq<char>,
    c: Seq<char>,
)
    ensures
        mark_spec(s, id, command).len() == s.len(),
        forall|j: int|
            0 <= j < s.len() ==> #[trigger] mark_spec(s, id, command)[j].id == s[j].id
                && mark_spec(s, id, command)[j].version == s[j].version && mark_spec(s, id, command)[j].variant
                == s[j].variant,
        lookup(mark_spec(s, id, command), other) == lookup(s, other),
        version_spec(mark_spec(s, id, command), other) == version_spec(s, other),
        executed_spec(mark_spec(s, id, command), other, c) == (executed_spec(s, other, c) || (other == id
            && c == command && has_key(s, entry_id(), id))),
{
    let t = mark_spec(s, id, command);
    lemma_first_index(s, entry_id(), id);
    lemma_first_index(s, entry_id(), other);
    match lookup(s, id) {
        Some(i) => {
            assert forall|j: int| 0 <= j < s.len() implies #[trigger] t[j].id == s[j].id && t[j].version
                == s[j].version && t[j].variant == s[j].variant by {
                if j != i {
                    assert(t[j] == s[j]);
                }
            }
            lemma_lookup_same_ids(s, t, other);
            if let Some(k) = lookup(s, other) {
                if k == i {
                    assert(other == id);
                    if !s[i].commands.contains(command) {
                        let cs = s[i].commands.push(command);
                        assert(t[i].commands == cs);
                        if cs.contains(c) && !s[i].commands.contains(c) {
                            let w = choose|w: int| 0 <= w < cs.len() && cs[w] == c;
                            if w < s[i].commands.len() {
                                assert(s[i].commands[w] == c);
                            }
                        }
                        if c == command {
                            assert(cs[s[i].commands.len() as int] == c);
                        }
                        if s[i].commands.contains(c) {
                            let w = choose|w: int| 0 <= w < s[i].commands.len() && s[i].commands[w] == c;
                            assert(cs[w] == c);
                        }
                    }
                } else {
                    assert(t[k] == s[k]);
                    assert(other != id);
                }
            } else {
                assert(other != id);
            }
        },
        None => {
            assert(t == s);
        },
    }
}

/// Upserting the same entry twice is the same as upserting it once.
pub proof fn law_upsert_idempotent(s: Seq<EntryModel>, e: EntryModel)
    ensures
        upsert_spec(upsert_spec(s, e), e) == upsert_spec(s, e),
{
    let t = upsert_spec(s, e);
    lemma_first_index(s, entry_id(), e.id);
    lemma_first_index(t, entry_id(), e.id);
    match lookup(s, e.id) {
        Some(i) => {
            match lookup(t, e.id) {
                Some(k) => {
                    if k < i {
                        assert(t[k] == s[k]);
                    } else if i < k {
                        assert(t[i].id == e.id);
                    }
                    assert(t.update(k, e) =~= t);
                },
                None => {
                    assert(t[i].id == e.id);
                },
            }
        },
        None => {
            assert(t[s.len() as int].id == e.id);
            match lookup(t, e.id) {
                Some(k) => {
                    if k < s.len() {
                        assert(t[k] == s[k]);
                    }
                    assert(t.update(k, e) =~= t);
                },
                None => {},
            }
        },
    }
}

/// Upserting keeps the addon ids unique.
pub proof fn law_upsert_keeps_ids_unique(s: Seq<EntryModel>, e: EntryModel)
    requires
        unique_keys(s, entry_id()),
    ensures
        unique_keys(upsert_spec(s, e), entry_id()),
{
    let t = upsert_spec(s, e);
    lemma_first_index(s, entry_id(), e.id);
    match lookup(s, e.id) {
        Some(i) => {
            assert forall|a: int, b: int|
                0 <= a < t.len() && 0 <= b < t.len() && a != b implies entry_id()(t[a]) != entry_id()(
                t[b],
            ) by {
                if a != i && b != i {
                    assert(t[a] == s[a] && t[b] == s[b]);
                } else if a == i {
                    assert(t[b] == s[b]);
                    assert(s[i].id == e.id);
                } else {
                    assert(t[a] == s[a]);
                    assert(s[i].id == e.id);
                }
            }
        },
        None => {
            assert forall|a: int, b: int|
                0 <= a < t.len() && 0 <= b < t.len() && a != b implies entry_id()(t[a]) != entry_id()(
                t[b],
            ) by {
                if a < s.len() && b < s.len() {
                    assert(t[a] == s[a] && t[b] == s[b]);
                } else if a < s.len() {
                    assert(t[a] == s[a]);
                } else {
                    assert(t[b] == s[b]);
                }
            }
        },
    }
}

/// After marking a command for an addon that has an entry, it is recorded
/// as executed; marking it a second time changes nothing.
pub proof fn law_mark_then_executed(s: Seq<EntryModel>, id: Seq<char>, command: Seq<char>)
    ensures
        executed_spec(mark_spec(s, id, command), id, command) == has_key(s, entry_id(), id),
        mark_spec(mark_spec(s, id, command), id, command) == mark_spec(s, id, command),
{
    let t = mark_spec(s, id, command);
    lemma_first_index(s, entry_id(), id);
    lemma_first_index(t, entry_id(), id);
    match lookup(s, id) {
        Some(i) => {
            assert(t[i].id == id);
            match lookup(t, id) {
                Some(k) => {
                    if k < i {
                        assert(t[k] == s[k]);
                    } else if i < k {
                        assert(t[i].id == id);
                    }
                    assert(t[i].commands.contains(command)) by {
                        if !s[i].commands.contains(command) {
                            assert(t[i].commands[t[i].commands.len() - 1] == command);
                        }
                    }
                },
                None => {},
            }
        },
        None => {
            assert(t == s);
        },
    }
}

} // verus!
