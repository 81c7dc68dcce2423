use vstd::prelude::*;

verus! {

/// One entry of the externally supplied entity table: a reference name
/// (without the leading ampersand or the closing semicolon), the one or
/// two scalars it expands to, and whether the name belongs to the legacy
/// subset that may appear without its closing semicolon.
pub struct NamedEntity {
    pub name: Vec<char>,
    pub expansion: Vec<char>,
    pub semicolon_optional: bool,
}

/// The mathematical image of one table entry.
pub ghost struct NamedEntityView {
    pub name: Seq<char>,
    pub expansion: Seq<char>,
    pub semicolon_optional: bool,
}

impl View for NamedEntity {
    type V = NamedEntityView;

    open spec fn view(&self) -> NamedEntityView {
        NamedEntityView {
            name: self.name@,
            expansion: self.expansion@,
            semicolon_optional: self.semicolon_optional,
        }
    }
}

/// ASCII letters and digits, the characters entity names are made of.
pub open spec fn is_alphanumeric_char(c: char) -> bool {
    let v = c as u32;
    (0x30 <= v && v <= 0x39) || (0x41 <= v && v <= 0x5A) || (0x61 <= v && v <= 0x7A)
}

/// Decides whether a character is an ASCII letter or digit.
pub fn is_alphanumeric(c: char) -> (r: bool)
    ensures
        r == is_alphanumeric_char(c),
{
    let v = c as u32;
    (0x30 <= v && v <= 0x39) || (0x41 <= v && v <= 0x5A) || (0x61 <= v && v <= 0x7A)
}

/// A well-formed entry: a nonempty alphanumeric name and an expansion of
/// one or two scalars.
pub open spec fn entity_wf(e: NamedEntityView) -> bool {
    &&& e.name.len() > 0
    &&& forall|i: int| 0 <= i < e.name.len() ==> is_alphanumeric_char(#[trigger] e.name[i])
    &&& 1 <= e.expansion.len() <= 2
}

/// The externally supplied mapping from entity names to their expansions.
pub struct NamedEntityTable {
    pub entries: Vec<NamedEntity>,
}

impl View for NamedEntityTable {
    type V = Seq<NamedEntityView>;

    open spec fn view(&self) -> Seq<NamedEntityView> {
        self.entries@.map_values(|e: NamedEntity| e@)
    }
}

impl NamedEntityTable {
    pub open spec fn wf(self) -> bool {
        forall|i: int| 0 <= i < self@.len() ==> entity_wf(#[trigger] self@[i])
    }

    /// An empty table: no name matches against it.
    pub fn new() -> (t: NamedEntityTable)
        ensures
            t.wf(),
            t@ == Seq::<NamedEntityView>::empty(),
    {
        let t = NamedEntityTable { entries: Vec::new() };
        proof {
            assert(t@ =~= Seq::<NamedEntityView>::empty());
        }
        t
    }

    /// Append one entry. Earlier entries win when two share a name.
    pub fn add(&mut self, name: Vec<char>, expansion: Vec<char>, semicolon_optional: bool)
        requires
            old(self).wf(),
            name@.len() > 0,
            forall|i: int| 0 <= i < name@.len() ==> is_alphanumeric_char(#[trigger] name@[i]),
            1 <= expansion@.len() <= 2,
        ensures
            final(self).wf(),
            final(self)@ == old(self)@.push(
                NamedEntityView {
                    name: name@,
                    expansion: expansion@,
                    semicolon_optional,
                },
            ),
    {
        let ghost v = NamedEntityView { name: name@, expansion: expansion@, semicolon_optional };
        self.entries.push(NamedEntity { name, expansion, semicolon_optional });
        proof {
            assert(self@ =~= old(self)@.push(v));
        }
    }
}

/// Whether `p` is a (not necessarily proper) prefix of `s`.
pub open spec fn is_prefix_of(p: Seq<char>, s: Seq<char>) -> bool {
    p.len() <= s.len() && s.take(p.len() as int) == p
}

/// First-match exact lookup of a name in the table.
pub open spec fn lookup_name(tbl: Seq<NamedEntityView>, name: Seq<char>) -> Option<NamedEntityView>
    decreases tbl.len(),
{
    if tbl.len() == 0 {
        None
    } else if tbl[0].name == name {
        Some(tbl[0])
    } else {
        lookup_name(tbl.drop_first(), name)
    }
}

/// Whether some table name begins with the given character run.
pub open spec fn extends_to_name(tbl: Seq<NamedEntityView>, prefix: Seq<char>) -> bool {
    exists|i: int| 0 <= i < tbl.len() && is_prefix_of(prefix, (#[trigger] tbl[i]).name)
}

/// Element-for-element comparison of two character runs.
fn chars_equal(a: &Vec<char>, b: &Vec<char>) -> (r: bool)
    ensures
        r == (a@ == b@),
{
    if a.len() != b.len() {
        return false;
    }
    let mut i: usize = 0;
    while i < a.len()
        invariant
            i <= a@.len(),
            a@.len() == b@.len(),
            forall|j: int| 0 <= j < i ==> a@[j] == b@[j],
        decreases a@.len() - i,
    {
        if a[i] != b[i] {
            return false;
        }
        i = i + 1;
    }
    proof {
        assert(a@ =~= b@);
    }
    true
}

/// Whether the run `p` is a prefix of the name `s`.
fn chars_prefix_of(p: &Vec<char>, s: &Vec<char>) -> (r: bool)
    ensures
        r == is_prefix_of(p@, s@),
{
    if p.len() > s.len() {
        return false;
    }
    let mut i: usize = 0;
    while i < p.len()
        invariant
            i <= p@.len(),
            p@.len() <= s@.len(),
            forall|j: int| 0 <= j < i ==> p@[j] == s@[j],
        decreases p@.len() - i,
    {
        if p[i] != s[i] {
            proof {
                assert(s@.take(p@.len() as int)[i as int] == s@[i as int]);
            }
            return false;
        }
        i = i + 1;
    }
    proof {
        assert(s@.take(p@.len() as int) =~= p@);
    }
    true
}

/// Whether the candidate run, extended by one more character, is still a
/// prefix of the given name.
fn extends_entry(cand: &Vec<char>, next: char, name: &Vec<char>) -> (r: bool)
    ensures
        r == is_prefix_of(cand@.push(next), name@),
{
    if cand.len() >= name.len() {
        return false;
    }
    let same = chars_prefix_of(cand, name);
    let r = same && name[cand.len()] == next;
    proof {
        if r {
            assert(name@.take(cand@.len() as int + 1) =~= cand@.push(next)) by {
                assert(forall|j: int|
                    0 <= j < cand@.len() ==> name@.take(cand@.len() as int)[j] == #[trigger] name@[j]);
            }
        } else {
            if is_prefix_of(cand@.push(next), name@) {
                assert(forall|j: int|
                    0 <= j < cand@.len() + 1 ==> name@.take(cand@.len() as int + 1)[j]
                        == #[trigger] name@[j]);
                assert(name@.take(cand@.len() as int) =~= cand@);
                assert(name@[cand@.len() as int] == next);
            }
        }
    }
    r
}

/// Whether appending one more character to the candidate run still leaves
/// a prefix of some table name.
pub fn any_name_extends(table: &NamedEntityTable, cand: &Vec<char>, next: char) -> (r: bool)
    ensures
        r == extends_to_name(table@, cand@.push(next)),
{
    let mut i: usize = 0;
    while i < table.entries.len()
        invariant
            i <= table@.len(),
            table@.len() == table.entries@.len(),
            forall|j: int|
                0 <= j < i ==> !is_prefix_of(cand@.push(next), (#[trigger] table@[j]).name),
        decreases table@.len() - i,
    {
        proof {
            assert(table@[i as int] == table.entries@[i as int]@);
        }
        if extends_entry(cand, next, &table.entries[i].name) {
            return true;
        }
        i = i + 1;
    }
    false
}

/// First-match exact lookup: the index of the first entry whose name
/// equals the given run, if one exists.
pub fn find_entry(table: &NamedEntityTable, name: &Vec<char>) -> (r: Option<usize>)
    ensures
        match r {
            Some(i) => i < table@.len() && lookup_name(table@, name@) == Some(table@[i as int]),
            None => lookup_name(table@, name@) is None,
        },
{
    let mut i: usize = 0;
    proof {
        assert(table@.skip(0) =~= table@);
    }
    while i < table.entries.len()
        invariant
            i <= table@.len(),
            table@.len() == table.entries@.len(),
            lookup_name(table@, name@) == lookup_name(table@.skip(i as int), name@),
        decreases table@.len() - i,
    {
        proof {
            assert(table@[i as int] == table.entries@[i as int]@);
            assert(table@.skip(i as int)[0] == table@[i as int]);
        }
        if chars_equal(&table.entries[i].name, name) {
            return Some(i);
        }
        proof {
            assert(table@.skip(i as int).drop_first() =~= table@.skip(i as int + 1));
        }
        i = i + 1;
    }
    proof {
        assert(table@.skip(i as int).len() == 0);
    }
    None
}

} // verus!
