//! Environment variables: parsing `KEY=VALUE` lines, overriding declared
//! defaults with runtime values, and collapsing a variable list to a map.

use vstd::prelude::*;
use crate::text::{split_first, split_once_char, strs};

verus! {

/// A variable as a pair of character sequences: name and value.
pub type Entry = (Seq<char>, Seq<char>);

/// A single environment variable as a key-value pair.
pub struct Variable {
    /// The variable name.
    pub key: String,
    /// The variable value.
    pub value: String,
}

impl View for Variable {
    type V = Entry;

    open spec fn view(&self) -> Entry {
        (self.key@, self.value@)
    }
}

impl Clone for Variable {
    fn clone(&self) -> (r: Self)
        ensures
            r@ == self@,
    {
        Variable { key: self.key.clone(), value: self.value.clone() }
    }
}

/// The text of a variable: `KEY = VALUE`.
pub open spec fn variable_text(v: Entry) -> Seq<char> {
    v.0 + " = "@ + v.1
}

impl Variable {
    /// Renders the variable as `KEY = VALUE`.
    pub fn to_string(&self) -> (r: String)
        ensures
            r@ == variable_text(self@),
    {
        let mut out = self.key.clone();
        out.append(" = ");
        out.append(self.value.as_str());
        out
    }

    /// Parses `KEY=VALUE`, splitting at the first `=`; a text without `=` is
    /// refused.
    pub fn from_str(s: &str) -> (r: Result<Variable, ()>)
        ensures
            r matches Ok(v) ==> split_first(s@, '=') == Some(v@),
            r is Err <==> split_first(s@, '=') is None,
    {
        match split_once_char(s, '=') {
            Some((key, value)) => Ok(Variable { key, value }),
            None => Err(()),
        }
    }
}

/// The entries that a list of `KEY=VALUE` lines gives: each line split at its
/// first `=`, lines without `=` left out, order kept.
pub open spec fn parse_lines(lines: Seq<Seq<char>>) -> Seq<Entry>
    decreases lines.len(),
{
    if lines.len() == 0 {
        Seq::empty()
    } else {
        let rest = parse_lines(lines.drop_last());
        match split_first(lines.last(), '=') {
            Some(kv) => rest.push(kv),
            None => rest,
        }
    }
}

/// The value of the first entry named `key`.
pub open spec fn lookup(entries: Seq<Entry>, key: Seq<char>) -> Option<Seq<char>>
    decreases entries.len(),
{
    if entries.len() == 0 {
        None
    } else if entries[0].0 == key {
        Some(entries[0].1)
    } else {
        lookup(entries.drop_first(), key)
    }
}

/// `entries` with each value replaced by the value that `other` gives its
/// name, where `other` names it.
pub open spec fn applied(entries: Seq<Entry>, other: Seq<Entry>) -> Seq<Entry> {
    Seq::new(
        entries.len(),
        |i: int|
            (
                entries[i].0,
                match lookup(other, entries[i].0) {
                    Some(v) => v,
                    None => entries[i].1,
                },
            ),
    )
}

/// The position of the first entry named `key`.
pub open spec fn key_position(entries: Seq<Entry>, key: Seq<char>) -> Option<nat>
    decreases entries.len(),
{
    if entries.len() == 0 {
        None
    } else if entries[0].0 == key {
        Some(0)
    } else {
        match key_position(entries.drop_first(), key) {
            Some(i) => Some(i + 1),
            None => None,
        }
    }
}

/// The entries collapsed so that each name occurs once, at its first
/// position, with the value of its last occurrence.
pub open spec fn merged(entries: Seq<Entry>) -> Seq<Entry>
    decreases entries.len(),
{
    if entries.len() == 0 {
        Seq::empty()
    } else {
        let prev = merged(entries.drop_last());
        let last = entries.last();
        match key_position(prev, last.0) {
            Some(j) => prev.update(j as int, last),
            None => prev.push(last),
        }
    }
}

/// The map that inserting the entries in order builds: a later entry
/// overrides an earlier one of the same name.
pub open spec fn as_map(entries: Seq<Entry>) -> Map<Seq<char>, Seq<char>>
    decreases entries.len(),
{
    if entries.len() == 0 {
        Map::empty()
    } else {
        as_map(entries.drop_last()).insert(entries.last().0, entries.last().1)
    }
}

/// No name occurs twice.
pub open spec fn distinct_keys(entries: Seq<Entry>) -> bool {
    forall|i: int, j: int|
        0 <= i < entries.len() && 0 <= j < entries.len() && i != j ==> entries[i].0
            != entries[j].0
}

/// The entry views of a list of string pairs.
pub open spec fn pair_views(pairs: Seq<(String, String)>) -> Seq<Entry> {
    pairs.map_values(|p: (String, String)| (p.0@, p.1@))
}

/// `key_position` finds the first entry of that name.
pub proof fn lemma_key_position(entries: Seq<Entry>, key: Seq<char>)
    ensures
        key_position(entries, key) matches Some(i) ==> {
            &&& i < entries.len()
            &&& entries[i as int].0 == key
            &&& forall|j: int| 0 <= j < i ==> entries[j].0 != key
        },
        key_position(entries, key) is None ==> forall|j: int|
            0 <= j < entries.len() ==> entries[j].0 != key,
    decreases entries.len(),
{
    if entries.len() > 0 {
        lemma_key_position(entries.drop_first(), key);
        if entries[0].0 != key {
            assert forall|j: int| 1 <= j < entries.len() implies entries[j] == entries.drop_first()[j
                - 1] by {}
        }
    }
}

pub proof fn lemma_key_position_at(entries: Seq<Entry>, key: Seq<char>, i: int)
    requires
        0 <= i < entries.len(),
        entries[i].0 == key,
        forall|j: int| 0 <= j < i ==> entries[j].0 != key,
    ensures
        key_position(entries, key) == Some(i as nat),
{
    lemma_key_position(entries, key);
    match key_position(entries, key) {
        Some(k) => {
            if k < i {
                assert(entries[k as int].0 != key);
            } else if k > i {
                assert(entries[i].0 != key);
            }
        },
        None => {
            assert(entries[i].0 != key);
        },
    }
}

/// `lookup` agrees with `key_position`.
pub proof fn lemma_lookup_position(entries: Seq<Entry>, key: Seq<char>)
    ensures
        lookup(entries, key) == match key_position(entries, key) {
            Some(i) => Some(entries[i as int].1),
            None => None::<Seq<char>>,
        },
    decreases entries.len(),
{
    if entries.len() > 0 && entries[0].0 != key {
        lemma_lookup_position(entries.drop_first(), key);
        lemma_key_position(entries.drop_first(), key);
        if let Some(i) = key_position(entries.drop_first(), key) {
            assert(entries.drop_first()[i as int] == entries[i + 1int]);
        }
    }
}

/// A name is in the map exactly when some entry has it.
pub proof fn lemma_as_map_dom(entries: Seq<Entry>, key: Seq<char>)
    ensures
        as_map(entries).dom().contains(key) <==> exists|i: int|
            0 <= i < entries.len() && #[trigger] entries[i].0 == key,
    decreases entries.len(),
{
    if entries.len() > 0 {
        let prev = entries.drop_last();
        lemma_as_map_dom(prev, key);
        if as_map(entries).dom().contains(key) {
            if entries.last().0 != key {
                let i = choose|i: int| 0 <= i < prev.len() && #[trigger] prev[i].0 == key;
                assert(entries[i].0 == key);
            } else {
                assert(entries[entries.len() - 1].0 == key);
            }
        }
        if exists|i: int| 0 <= i < entries.len() && #[trigger] entries[i].0 == key {
            let i = choose|i: int| 0 <= i < entries.len() && #[trigger] entries[i].0 == key;
            if i < entries.len() - 1 {
                assert(prev[i].0 == key);
            }
        }
    }
}

/// In a list where names are distinct, the map gives each entry's value.
pub proof fn lemma_as_map_value(entries: Seq<Entry>, j: int)
    requires
        distinct_keys(entries),
        0 <= j < entries.len(),
    ensures
        as_map(entries).dom().contains(entries[j].0),
        as_map(entries)[entries[j].0] == entries[j].1,
    decreases entries.len(),
{
    let prev = entries.drop_last();
    if j < entries.len() - 1 {
        assert(entries[j].0 != entries[entries.len() - 1].0);
        assert(distinct_keys(prev));
        lemma_as_map_value(prev, j);
    }
}

proof fn lemma_as_map_update(entries: Seq<Entry>, j: int, e: Entry)
    requires
        distinct_keys(entries),
        0 <= j < entries.len(),
        entries[j].0 == e.0,
    ensures
        distinct_keys(entries.update(j, e)),
        as_map(entries.update(j, e)) == as_map(entries).insert(e.0, e.1),
{
    let upd = entries.update(j, e);
    assert(distinct_keys(upd));
    assert forall|k: Seq<char>| #![auto]
        as_map(upd).dom().contains(k) <==> as_map(entries).insert(e.0, e.1).dom().contains(k) by {
        lemma_as_map_dom(upd, k);
        lemma_as_map_dom(entries, k);
        if exists|i: int| 0 <= i < entries.len() && #[trigger] entries[i].0 == k {
            let i = choose|i: int| 0 <= i < entries.len() && #[trigger] entries[i].0 == k;
            assert(upd[i].0 == k);
        }
        if exists|i: int| 0 <= i < upd.len() && #[trigger] upd[i].0 == k {
            let i = choose|i: int| 0 <= i < upd.len() && #[trigger] upd[i].0 == k;
            assert(entries[i].0 == k);
        }
    }
    assert forall|k: Seq<char>| #![auto] as_map(upd).dom().contains(k) implies as_map(upd)[k]
        == as_map(entries).insert(e.0, e.1)[k] by {
        lemma_as_map_dom(upd, k);
        let i = choose|i: int| 0 <= i < upd.len() && #[trigger] upd[i].0 == k;
        lemma_as_map_value(upd, i);
        if i != j {
            lemma_as_map_value(entries, i);
        }
    }
    assert(as_map(upd) =~= as_map(entries).insert(e.0, e.1));
}

/// Collapsing keeps one entry per name, and the map is unchanged.
pub proof fn lemma_merged(entries: Seq<Entry>)
    ensures
        distinct_keys(merged(entries)),
        as_map(merged(entries)) == as_map(entries),
    decreases entries.len(),
{
    if entries.len() > 0 {
        let prev = merged(entries.drop_last());
        let last = entries.last();
        lemma_merged(entries.drop_last());
        lemma_key_position(prev, last.0);
        match key_position(prev, last.0) {
            Some(j) => {
                lemma_as_map_update(prev, j as int, last);
            },
            None => {
                let pushed = prev.push(last);
                assert(pushed.drop_last() =~= prev);
                assert(distinct_keys(pushed));
            },
        }
    }
}

/// The entry views of a list of variables.
pub open spec fn entries_of(vs: Seq<Variable>) -> Seq<Entry> {
    vs.map_values(|v: Variable| v@)
}

proof fn lemma_entries_push(vs: Seq<Variable>, v: Variable)
    ensures
        entries_of(vs.push(v)) =~= entries_of(vs).push(v@),
{
}

proof fn lemma_pairs_push(ps: Seq<(String, String)>, p: (String, String))
    ensures
        pair_views(ps.push(p)) =~= pair_views(ps).push((p.0@, p.1@)),
{
}

proof fn lemma_pairs_update(ps: Seq<(String, String)>, j: int, p: (String, String))
    requires
        0 <= j < ps.len(),
    ensures
        pair_views(ps.update(j, p)) =~= pair_views(ps).update(j, (p.0@, p.1@)),
{
}

/// The position of the first pair named `key`.
pub(crate) fn position_of_key(pairs: &Vec<(String, String)>, key: &String) -> (r: Option<usize>)
    ensures
        r matches Some(j) ==> j < pairs.len() && key_position(pair_views(pairs@), key@) == Some(
            j as nat,
        ),
        r is None ==> key_position(pair_views(pairs@), key@) is None,
{
    let ghost views = pair_views(pairs@);
    let mut j: usize = 0;
    while j < pairs.len()
        invariant
            j <= pairs.len(),
            views == pair_views(pairs@),
            forall|jj: int| 0 <= jj < j ==> views[jj].0 != key@,
        decreases pairs.len() - j,
    {
        assert(views[j as int] == (pairs@[j as int].0@, pairs@[j as int].1@));
        if pairs[j].0 == *key {
            proof {
                lemma_key_position_at(views, key@, j as int);
            }
            return Some(j);
        }
        j = j + 1;
    }
    proof {
        lemma_key_position(views, key@);
        if let Some(k) = key_position(views, key@) {
            assert(views[k as int].0 != key@);
        }
    }
    None
}

/// Resolved environment variables for a devcontainer workspace.
pub struct Environment {
    /// The variables, in order.
    pub variables: Vec<Variable>,
}

impl View for Environment {
    type V = Seq<Entry>;

    open spec fn view(&self) -> Seq<Entry> {
        entries_of(self.variables@)
    }
}

impl Clone for Environment {
    fn clone(&self) -> (r: Self)
        ensures
            r@ == self@,
    {
        let mut variables: Vec<Variable> = Vec::new();
        let mut i: usize = 0;
        while i < self.variables.len()
            invariant
                i <= self.variables.len(),
                entries_of(variables@) =~= self@.take(i as int),
            decreases self.variables.len() - i,
        {
            let v = self.variables[i].clone();
            proof {
                lemma_entries_push(variables@, v);
                assert(self@.take(i + 1) =~= self@.take(i as int).push(self@[i as int]));
            }
            variables.push(v);
            i = i + 1;
        }
        Environment { variables }
    }
}

impl Default for Environment {
    fn default() -> (r: Self)
        ensures
            r@ == Seq::<Entry>::empty(),
    {
        Environment { variables: Vec::new() }
    }
}

impl Environment {
    /// An environment with no variables.
    pub fn new() -> (r: Self)
        ensures
            r@ == Seq::<Entry>::empty(),
    {
        Environment { variables: Vec::new() }
    }

    /// Builds an environment from `KEY=VALUE` lines, leaving out lines
    /// without `=`.
    pub fn from_lines(lines: Vec<String>) -> (r: Self)
        ensures
            r@ == parse_lines(strs(lines@)),
    {
        let mut variables: Vec<Variable> = Vec::new();
        let ghost all = strs(lines@);
        let mut i: usize = 0;
        while i < lines.len()
            invariant
                i <= lines.len(),
                all == strs(lines@),
                entries_of(variables@) =~= parse_lines(all.take(i as int)),
            decreases lines.len() - i,
        {
            assert(all.take(i + 1).drop_last() =~= all.take(i as int));
            assert(all.take(i + 1).last() == lines@[i as int]@);
            match Variable::from_str(lines[i].as_str()) {
                Ok(v) => {
                    proof {
                        lemma_entries_push(variables@, v);
                    }
                    variables.push(v);
                },
                Err(()) => {},
            }
            i = i + 1;
        }
        assert(all.take(i as int) =~= all);
        Environment { variables }
    }

    /// Builds an environment from name-value pairs, in order.
    pub fn from_pairs(pairs: Vec<(String, String)>) -> (r: Self)
        ensures
            r@ == pair_views(pairs@),
    {
        let mut variables: Vec<Variable> = Vec::new();
        let mut i: usize = 0;
        while i < pairs.len()
            invariant
                i <= pairs.len(),
                entries_of(variables@) =~= pair_views(pairs@).take(i as int),
            decreases pairs.len() - i,
        {
            let key = pairs[i].0.clone();
            let value = pairs[i].1.clone();
            let v = Variable { key, value };
            proof {
                lemma_entries_push(variables@, v);
                let pv = pair_views(pairs@);
                assert(pv.take(i + 1) =~= pv.take(i as int).push(pv[i as int]));
            }
            variables.push(v);
            i = i + 1;
        }
        assert(pair_views(pairs@).take(i as int) =~= pair_views(pairs@));
        Environment { variables }
    }

    /// The value of the first variable named `key`.
    pub fn get(&self, key: &String) -> (r: Option<String>)
        ensures
            r matches Some(v) ==> lookup(self@, key@) == Some(v@),
            r is None ==> lookup(self@, key@) is None,
    {
        let mut i: usize = 0;
        assert(self@.skip(0) =~= self@);
        while i < self.variables.len()
            invariant
                i <= self.variables.len(),
                lookup(self@, key@) == lookup(self@.skip(i as int), key@),
            decreases self.variables.len() - i,
        {
            assert(self@.skip(i as int)[0] == self@[i as int]);
            assert(self@.skip(i as int).drop_first() =~= self@.skip(i + 1));
            if self.variables[i].key == *key {
                return Some(self.variables[i].value.clone());
            }
            i = i + 1;
        }
        assert(self@.skip(i as int).len() == 0);
        None
    }

    /// Overrides the value of each variable of `self` with the value that
    /// `other` gives the same name; names that only `other` has are ignored.
    pub fn apply(self, other: &Environment) -> (r: Self)
        ensures
            r@ == applied(self@, other@),
    {
        let mut variables: Vec<Variable> = Vec::new();
        let mut i: usize = 0;
        while i < self.variables.len()
            invariant
                i <= self.variables.len(),
                entries_of(variables@) =~= applied(self@, other@).take(i as int),
            decreases self.variables.len() - i,
        {
            let key = self.variables[i].key.clone();
            let value = match other.get(&key) {
                Some(runtime) => runtime,
                None => self.variables[i].value.clone(),
            };
            let v = Variable { key, value };
            proof {
                lemma_entries_push(variables@, v);
                let ap = applied(self@, other@);
                assert(ap.take(i + 1) =~= ap.take(i as int).push(ap[i as int]));
            }
            variables.push(v);
            i = i + 1;
        }
        assert(applied(self@, other@).take(i as int) =~= applied(self@, other@));
        Environment { variables }
    }

    /// The variables collapsed to one per name, each at the position of its
    /// first occurrence with the value of its last, as collecting them into
    /// a map does.
    pub fn to_map_entries(&self) -> (r: Vec<(String, String)>)
        ensures
            pair_views(r@) == merged(self@),
    {
        let mut out: Vec<(String, String)> = Vec::new();
        let mut i: usize = 0;
        while i < self.variables.len()
            invariant
                i <= self.variables.len(),
                pair_views(out@) =~= merged(self@.take(i as int)),
            decreases self.variables.len() - i,
        {
            let key = self.variables[i].key.clone();
            let value = self.variables[i].value.clone();
            let ghost prev = pair_views(out@);
            assert(self@.take(i + 1).drop_last() =~= self@.take(i as int));
            let found = position_of_key(&out, &key);
            if let Some(j) = found {
                proof {
                    lemma_pairs_update(out@, j as int, (key, value));
                }
                out.set(j, (key, value));
                assert(pair_views(out@) =~= prev.update(j as int, self@[i as int]));
            } else {
                proof {
                    lemma_pairs_push(out@, (key, value));
                }
                out.push((key, value));
                assert(pair_views(out@) =~= prev.push(self@[i as int]));
            }
            i = i + 1;
        }
        assert(self@.take(i as int) =~= self@);
        out
    }
}

/// A newtype around a variable list that collapses into a map.
pub struct VariableVec(pub Vec<Variable>);

impl VariableVec {
    /// The variables collapsed to one per name, as collecting them into a
    /// map does.
    pub fn to_map_entries(self) -> (r: Vec<(String, String)>)
        ensures
            pair_views(r@) == merged(entries_of(self.0@)),
    {
        let env = Environment { variables: self.0 };
        env.to_map_entries()
    }
}

// ---------------------------------------------------------------------------
// Laws
// ---------------------------------------------------------------------------

/// Applying an environment that has no variables changes nothing.
pub proof fn lemma_apply_nothing(entries: Seq<Entry>)
    ensures
        applied(entries, Seq::empty()) == entries,
{
    assert(applied(entries, Seq::empty()) =~= entries);
}

/// Applying the same runtime values twice gives what applying them once does.
pub proof fn lemma_apply_idempotent(entries: Seq<Entry>, other: Seq<Entry>)
    ensures
        applied(applied(entries, other), other) == applied(entries, other),
{
    assert(applied(applied(entries, other), other) =~= applied(entries, other));
}

/// Applying keeps the names, their order and their number; a name keeps its
/// declared value exactly when the runtime values do not name it.
pub proof fn lemma_apply_keeps_names(entries: Seq<Entry>, other: Seq<Entry>, i: int)
    requires
        0 <= i < entries.len(),
    ensures
        applied(entries, other).len() == entries.len(),
        applied(entries, other)[i].0 == entries[i].0,
        (forall|j: int| 0 <= j < other.len() ==> other[j].0 != entries[i].0) ==> applied(
            entries,
            other,
        )[i].1 == entries[i].1,
        (exists|j: int| 0 <= j < other.len() && other[j].0 == entries[i].0) ==> applied(
            entries,
            other,
        )[i].1 == lookup(other, entries[i].0)->0,
{
    lemma_lookup_position(other, entries[i].0);
    lemma_key_position(other, entries[i].0);
}

/// Collapsing into a map keeps every name once, and each name reads back the
/// value of its last occurrence.
pub proof fn lemma_map_reads_last_write(entries: Seq<Entry>, i: int)
    requires
        0 <= i < entries.len(),
        forall|j: int| i < j < entries.len() ==> entries[j].0 != entries[i].0,
    ensures
        distinct_keys(merged(entries)),
        as_map(merged(entries)).dom().contains(entries[i].0),
        as_map(merged(entries))[entries[i].0] == entries[i].1,
    decreases entries.len(),
{
    lemma_merged(entries);
    if i == entries.len() - 1 {
    } else {
        lemma_map_reads_last_write(entries.drop_last(), i);
        lemma_merged(entries.drop_last());
    }
}

/// A `KEY=VALUE` text whose key has no `=` parses back to its key and value.
pub proof fn lemma_variable_roundtrip(key: Seq<char>, value: Seq<char>)
    requires
        !key.contains('='),
    ensures
        split_first(key + seq!['='] + value, '=') == Some((key, value)),
{
    let s = key + seq!['='] + value;
    assert forall|j: int| 0 <= j < key.len() implies s[j] != '=' by {
        assert(s[j] == key[j]);
    }
    crate::text::lemma_find_char_at(s, '=', key.len() as int);
    assert(s.take(key.len() as int) =~= key);
    assert(s.skip(key.len() + 1int) =~= value);
}

/// Parsing lines listed one after the other gives the entries of each, one
/// after the other: no line is dropped, repeated or reordered.
pub proof fn lemma_parse_lines_concat(a: Seq<Seq<char>>, b: Seq<Seq<char>>)
    ensures
        parse_lines(a + b) == parse_lines(a) + parse_lines(b),
    decreases b.len(),
{
    if b.len() == 0 {
        assert(a + b =~= a);
        assert(parse_lines(a) + parse_lines(b) =~= parse_lines(a));
    } else {
        lemma_parse_lines_concat(a, b.drop_last());
        assert((a + b).drop_last() =~= a + b.drop_last());
        assert((a + b).last() == b.last());
        match split_first(b.last(), '=') {
            Some(kv) => {
                assert(parse_lines(a + b) =~= (parse_lines(a) + parse_lines(b.drop_last())).push(kv));
            },
            None => {},
        }
    }
}

/// One line gives its key and value, split at its first `=`; a line without
/// `=` gives nothing.
pub proof fn lemma_parse_lines_single(line: Seq<char>)
    ensures
        parse_lines(seq![line]) == match split_first(line, '=') {
            Some(kv) => seq![kv],
            None => Seq::<Entry>::empty(),
        },
{
    assert(seq![line].drop_last() =~= Seq::<Seq<char>>::empty());
    assert(seq![line].last() == line);
    assert(parse_lines(Seq::<Seq<char>>::empty()) =~= Seq::<Entry>::empty());
    assert(parse_lines(seq![line]) =~= match split_first(line, '=') {
        Some(kv) => seq![kv],
        None => Seq::<Entry>::empty(),
    });
}

} // verus!
