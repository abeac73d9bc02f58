//! The shell's named values: the aliases that stand for commands and the
//! variables that `$name` refers to.
use crate::patterns::{alias_definitions, alias_defs, alias_defs_ok, alias_defs_readable};
use crate::text::{chars_of, join, join_from, string_of, views};
use vstd::prelude::*;

verus! {

broadcast use vstd::string::group_string_axioms;

/// The map that a list of `(name, value)` pairs describes, later pairs
/// taking precedence.
pub open spec fn map_of(ps: Seq<(Seq<char>, Seq<char>)>) -> Map<Seq<char>, Seq<char>>
    decreases ps.len(),
{
    if ps.len() == 0 {
        Map::empty()
    } else {
        map_of(ps.drop_last()).insert(ps.last().0, ps.last().1)
    }
}

/// No name occurs twice among `ps`.
pub open spec fn unique_names(ps: Seq<(Seq<char>, Seq<char>)>) -> bool {
    forall|i: int, j: int| 0 <= i < j < ps.len() ==> ps[i].0 != ps[j].0
}

proof fn lemma_map_of_dom(ps: Seq<(Seq<char>, Seq<char>)>, k: Seq<char>)
    ensures
        map_of(ps).contains_key(k) <==> exists|i: int| 0 <= i < ps.len() && ps[i].0 == k,
    decreases ps.len(),
{
    if ps.len() > 0 {
        lemma_map_of_dom(ps.drop_last(), k);
        if map_of(ps).contains_key(k) && k != ps.last().0 {
            let i = choose|i: int| 0 <= i < ps.len() - 1 && ps.drop_last()[i].0 == k;
            assert(ps[i].0 == k);
        }
        if exists|i: int| 0 <= i < ps.len() && ps[i].0 == k {
            let i = choose|i: int| 0 <= i < ps.len() && ps[i].0 == k;
            if i < ps.len() - 1 {
                assert(ps.drop_last()[i].0 == k);
            }
        }
    }
}

proof fn lemma_map_of_at(ps: Seq<(Seq<char>, Seq<char>)>, i: int)
    requires
        unique_names(ps),
        0 <= i < ps.len(),
    ensures
        map_of(ps).contains_key(ps[i].0),
        map_of(ps)[ps[i].0] == ps[i].1,
    decreases ps.len(),
{
    if i < ps.len() - 1 {
        assert(ps.drop_last()[i] == ps[i]);
        lemma_map_of_at(ps.drop_last(), i);
    }
}

proof fn lemma_map_of_update(ps: Seq<(Seq<char>, Seq<char>)>, i: int, v: Seq<char>)
    requires
        unique_names(ps),
        0 <= i < ps.len(),
    ensures
        map_of(ps.update(i, (ps[i].0, v))) == map_of(ps).insert(ps[i].0, v),
    decreases ps.len(),
{
    let qs = ps.update(i, (ps[i].0, v));
    if i == ps.len() - 1 {
        assert(qs.drop_last() =~= ps.drop_last());
        assert(map_of(qs) =~= map_of(ps).insert(ps[i].0, v));
    } else {
        assert(qs.drop_last() =~= ps.drop_last().update(i, (ps[i].0, v)));
        lemma_map_of_update(ps.drop_last(), i, v);
        assert(ps.last().0 != ps[i].0);
        assert(map_of(qs) =~= map_of(ps).insert(ps[i].0, v));
    }
}

/// A table of named values, kept in the order in which names were first
/// defined; each name occurs once.
pub struct Table {
    entries: Vec<(String, String)>,
}

impl Table {
    /// The `(name, value)` pairs of the table, in order.
    pub closed spec fn pairs(&self) -> Seq<(Seq<char>, Seq<char>)> {
        self.entries@.map_values(|e: (String, String)| (e.0@, e.1@))
    }

    #[verifier::type_invariant]
    spec fn names_unique(&self) -> bool {
        unique_names(self.pairs())
    }

    /// An empty table.
    pub fn new() -> (t: Table)
        ensures
            t.pairs() == Seq::<(Seq<char>, Seq<char>)>::empty(),
            t@ == Map::<Seq<char>, Seq<char>>::empty(),
    {
        let t = Table { entries: Vec::new() };
        assert(t.pairs() =~= Seq::<(Seq<char>, Seq<char>)>::empty());
        t
    }

    /// The number of names in the table.
    pub fn len(&self) -> (n: usize)
        ensures
            n == self.pairs().len(),
    {
        self.entries.len()
    }

    /// The `i`-th name and value.
    pub fn entry(&self, i: usize) -> (r: (String, String))
        requires
            i < self.pairs().len(),
        ensures
            (r.0@, r.1@) == self.pairs()[i as int],
    {
        let e = &self.entries[i];
        (e.0.clone(), e.1.clone())
    }

    /// The index at which `name` stands, if it does.
    fn position(&self, name: &String) -> (r: Option<usize>)
        ensures
            r matches Some(i) ==> i < self.pairs().len() && self.pairs()[i as int].0 == name@,
            r is None ==> forall|i: int|
                0 <= i < self.pairs().len() ==> self.pairs()[i].0 != name@,
    {
        let mut i: usize = 0;
        while i < self.entries.len()
            invariant
                i <= self.entries.len(),
                forall|j: int| 0 <= j < i ==> self.pairs()[j].0 != name@,
            decreases self.entries.len() - i,
        {
            if self.entries[i].0 == *name {
                return Some(i);
            }
            i = i + 1;
        }
        None
    }

    /// The value of `name`, if the table has one.
    pub fn get(&self, name: &String) -> (r: Option<String>)
        ensures
            r matches Some(v) ==> self@.contains_key(name@) && v@ == self@[name@],
            r is None ==> !self@.contains_key(name@),
    {
        proof {
            use_type_invariant(self);
            lemma_map_of_dom(self.pairs(), name@);
        }
        match self.position(name) {
            Some(i) => {
                proof {
                    lemma_map_of_at(self.pairs(), i as int);
                }
                Some(self.entries[i].1.clone())
            },
            None => None,
        }
    }

    /// Gives `name` the value `value`: in its place if it is defined, after
    /// the others if not.
    pub fn insert(&mut self, name: String, value: String)
        ensures
            final(self)@ == old(self)@.insert(name@, value@),
            (exists|i: int|
                0 <= i < old(self).pairs().len() && old(self).pairs()[i].0 == name@)
                ==> final(self).pairs().len() == old(self).pairs().len(),
            !(exists|i: int|
                0 <= i < old(self).pairs().len() && old(self).pairs()[i].0 == name@)
                ==> final(self).pairs() == old(self).pairs().push((name@, value@)),
    {
        proof {
            use_type_invariant(&*self);
        }
        let ghost ps = self.pairs();
        let pos = self.position(&name);
        let mut entries: Vec<(String, String)> = Vec::new();
        std::mem::swap(&mut entries, &mut self.entries);
        assert(entries@.map_values(|e: (String, String)| (e.0@, e.1@)) =~= ps);
        match pos {
            Some(i) => {
                let ghost nv = value@;
                entries.set(i, (name, value));
                proof {
                    assert(entries@.map_values(|e: (String, String)| (e.0@, e.1@)) =~= ps.update(
                        i as int,
                        (ps[i as int].0, nv),
                    ));
                    lemma_map_of_update(ps, i as int, nv);
                }
                self.entries = entries;
            },
            None => {
                let ghost d = (name@, value@);
                entries.push((name, value));
                assert(entries@.map_values(|e: (String, String)| (e.0@, e.1@)) =~= ps.push(d));
                self.entries = entries;
                assert(self.pairs().drop_last() =~= ps);
            },
        }
    }
}

impl View for Table {
    type V = Map<Seq<char>, Seq<char>>;

    closed spec fn view(&self) -> Map<Seq<char>, Seq<char>> {
        map_of(self.pairs())
    }
}


/// The character sequences of a list of strings.
pub open spec fn string_views(v: Seq<String>) -> Seq<Seq<char>> {
    v.map_values(|s: String| s@)
}

/// The character sequences of a list of string pairs.
pub open spec fn pair_views(v: Seq<(String, String)>) -> Seq<(Seq<char>, Seq<char>)> {
    v.map_values(|d: (String, String)| (d.0@, d.1@))
}

/// The characters of each of `v`.
pub fn chars_of_all(v: &Vec<String>) -> (r: Vec<Vec<char>>)
    ensures
        views(r@) == string_views(v@),
{
    let mut r: Vec<Vec<char>> = Vec::new();
    let mut i: usize = 0;
    while i < v.len()
        invariant
            i <= v.len(),
            views(r@) == string_views(v@).take(i as int),
        decreases v.len() - i,
    {
        let ghost before = views(r@);
        let c = chars_of(v[i].as_str());
        let ghost cv = c@;
        r.push(c);
        assert(views(r@) =~= before.push(cv));
        assert(string_views(v@).take(i + 1) =~= string_views(v@).take(i as int).push(cv));
        i = i + 1;
    }
    assert(string_views(v@).take(v.len() as int) =~= string_views(v@));
    r
}

/// `m` with each of `defs` defined in turn, later ones taking precedence.
pub open spec fn define_all(m: Map<Seq<char>, Seq<char>>, defs: Seq<(Seq<char>, Seq<char>)>) -> Map<
    Seq<char>,
    Seq<char>,
>
    decreases defs.len(),
{
    if defs.len() == 0 {
        m
    } else {
        define_all(m, defs.drop_last()).insert(defs.last().0, defs.last().1)
    }
}

/// After definitions are made, the last one stands for its name, and a name
/// that none of them defines stands for what it stood for before.
pub proof fn law_defined_alias_read_back(
    m: Map<Seq<char>, Seq<char>>,
    defs: Seq<(Seq<char>, Seq<char>)>,
    k: Seq<char>,
)
    ensures
        defs.len() > 0 ==> define_all(m, defs).contains_key(defs.last().0) && define_all(
            m,
            defs,
        )[defs.last().0] == defs.last().1,
        (forall|i: int| 0 <= i < defs.len() ==> #[trigger] defs[i].0 != k) ==> (define_all(
            m,
            defs,
        ).contains_key(k) == m.contains_key(k) && (m.contains_key(k) ==> define_all(m, defs)[k]
            == m[k])),
    decreases defs.len(),
{
    if defs.len() > 0 {
        if forall|i: int| 0 <= i < defs.len() ==> #[trigger] defs[i].0 != k {
            assert forall|i: int| 0 <= i < defs.drop_last().len() implies #[trigger] defs.drop_last()[i].0
                != k by {
                assert(defs.drop_last()[i] == defs[i]);
            }
            assert(defs[defs.len() - 1].0 != k);
        }
        law_defined_alias_read_back(m, defs.drop_last(), k);
    }
}

/// A variable that a command line assigns is read back, where the
/// environment has no value for its name, as the assigned value without
/// enclosing quotes; other variables keep their values.
pub proof fn law_assigned_variable_read_back(
    vars: Map<Seq<char>, Seq<char>>,
    name: Seq<char>,
    value: Seq<char>,
    other: Seq<char>,
)
    requires
        other != name,
    ensures
        vars.insert(name, value).contains_key(name),
        vars.insert(name, value)[name] == value,
        vars.insert(name, value).contains_key(other) == vars.contains_key(other),
        vars.contains_key(other) ==> vars.insert(name, value)[other] == vars[other],
{
}

/// The line that lists an alias: `alias name='value'`.
pub open spec fn alias_line(name: Seq<char>, value: Seq<char>) -> Seq<char> {
    seq!['a', 'l', 'i', 'a', 's', ' '] + name + seq!['=', '\''] + value + seq!['\'']
}

/// The shell's aliases and variables.
pub struct ShellState {
    pub aliases: Table,
    pub variables: Table,
}

/// What the `alias` builtin did.
pub enum AliasOutcome {
    /// Its arguments held definitions, and it made them.
    Defined,
    /// Its arguments held no definition; these lines list the aliases.
    Listing(Vec<String>),
}

impl ShellState {
    /// A shell with no aliases and no variables.
    pub fn new() -> (st: ShellState)
        ensures
            st.aliases@ == Map::<Seq<char>, Seq<char>>::empty(),
            st.variables@ == Map::<Seq<char>, Seq<char>>::empty(),
            st.aliases.pairs().len() == 0,
            st.variables.pairs().len() == 0,
    {
        ShellState { aliases: Table::new(), variables: Table::new() }
    }
}

/// The command that the alias `alias` stands for, if there is one.
pub fn get_alias(state: &ShellState, alias: &str) -> (r: Option<String>)
    ensures
        r matches Some(v) ==> state.aliases@.contains_key(alias@) && v@ == state.aliases@[alias@],
        r is None ==> !state.aliases@.contains_key(alias@),
{
    let name = string_of(&chars_of(alias));
    state.aliases.get(&name)
}

/// Defines each of `defs` as an alias, in turn.
pub fn create_alias(state: &mut ShellState, defs: &Vec<(String, String)>)
    ensures
        final(state).aliases@ == define_all(old(state).aliases@, pair_views(defs@)),
        final(state).variables == old(state).variables,
{
    let ghost d = pair_views(defs@);
    let mut i: usize = 0;
    while i < defs.len()
        invariant
            i <= defs.len(),
            d == pair_views(defs@),
            state.aliases@ == define_all(old(state).aliases@, d.take(i as int)),
            state.variables == old(state).variables,
        decreases defs.len() - i,
    {
        let name = defs[i].0.clone();
        let value = defs[i].1.clone();
        state.aliases.insert(name, value);
        assert(d.take(i + 1).drop_last() =~= d.take(i as int));
        i = i + 1;
    }
    assert(d.take(defs.len() as int) =~= d);
}

/// Gives the variable `name` the value `value`.
pub fn create_variable(state: &mut ShellState, name: &str, value: &str)
    ensures
        final(state).variables@ == old(state).variables@.insert(name@, value@),
        final(state).aliases == old(state).aliases,
{
    let n = string_of(&chars_of(name));
    let v = string_of(&chars_of(value));
    state.variables.insert(n, v);
}

/// The value that `$name` stands for: the environment's value if
/// `env_value` holds one, else the shell variable's value, else nothing.
pub fn lookup_variable(state: &ShellState, name: &str, env_value: Option<String>) -> (r: String)
    ensures
        env_value matches Some(e) ==> r@ == e@,
        env_value is None && state.variables@.contains_key(name@) ==> r@
            == state.variables@[name@],
        env_value is None && !state.variables@.contains_key(name@) ==> r@ == Seq::<char>::empty(),
{
    match env_value {
        Some(e) => e,
        None => {
            let n = string_of(&chars_of(name));
            match state.variables.get(&n) {
                Some(v) => v,
                None => String::new(),
            }
        },
    }
}

/// The lines that list the aliases of `table`, in its order: one line for
/// each of its names, each name once, with the value it stands for.
pub fn alias_lines(table: &Table) -> (r: Vec<String>)
    ensures
        unique_names(table.pairs()),
        forall|k: Seq<char>|
            #[trigger] table@.contains_key(k) <==> exists|i: int|
                0 <= i < table.pairs().len() && table.pairs()[i].0 == k,
        forall|i: int|
            0 <= i < table.pairs().len() ==> #[trigger] table@[table.pairs()[i].0]
                == table.pairs()[i].1,
        r@.len() == table.pairs().len(),
        forall|i: int|
            0 <= i < r@.len() ==> #[trigger] r@[i]@ == alias_line(
                table.pairs()[i].0,
                table.pairs()[i].1,
            ),
{
    proof {
        use_type_invariant(table);
        assert forall|k: Seq<char>| #[trigger] table@.contains_key(k) <==> exists|i: int|
            0 <= i < table.pairs().len() && table.pairs()[i].0 == k by {
            lemma_map_of_dom(table.pairs(), k);
        }
        assert forall|i: int| 0 <= i < table.pairs().len() implies #[trigger] table@[table.pairs()[i].0]
            == table.pairs()[i].1 by {
            lemma_map_of_at(table.pairs(), i);
        }
    }
    let mut r: Vec<String> = Vec::new();
    let mut i: usize = 0;
    while i < table.len()
        invariant
            i <= table.pairs().len(),
            r@.len() == i,
            forall|j: int|
                0 <= j < i ==> #[trigger] r@[j]@ == alias_line(
                    table.pairs()[j].0,
                    table.pairs()[j].1,
                ),
        decreases table.pairs().len() - i,
    {
        let (name, value) = table.entry(i);
        let mut line: Vec<char> = vec!['a', 'l', 'i', 'a', 's', ' '];
        crate::text::append_chars(&mut line, &chars_of(name.as_str()));
        line.push('=');
        line.push('\'');
        crate::text::append_chars(&mut line, &chars_of(value.as_str()));
        line.push('\'');
        assert(line@ =~= alias_line(name@, value@));
        r.push(string_of(&line));
        i = i + 1;
    }
    r
}

/// What the `alias` builtin with arguments `args` does, from `old` to
/// `new`, answering `r`: the arguments, joined by spaces, are searched for
/// definitions `name="value"`; if there are any, each is made in turn, else
/// the answer lists the aliases in order. Variables are untouched.
pub open spec fn alias_done(old: ShellState, new: ShellState, args: Seq<Seq<char>>, r: AliasOutcome) -> bool {
    let defs = alias_defs(join(args, seq![' ']));
    &&& defs.len() > 0 ==> r is Defined && new.aliases@ == define_all(old.aliases@, defs)
    &&& defs.len() == 0 ==> new.aliases == old.aliases && (r matches AliasOutcome::Listing(lines)
        && lines@.len() == old.aliases.pairs().len() && forall|i: int|
        0 <= i < lines@.len() ==> #[trigger] lines@[i]@ == alias_line(
            old.aliases.pairs()[i].0,
            old.aliases.pairs()[i].1,
        ))
    &&& new.variables == old.variables
}

/// The arguments of the `alias` builtin joined by spaces, the text that it
/// searches for definitions.
pub fn joined_args(args: &Vec<String>) -> (r: String)
    ensures
        r@ == join(string_views(args@), seq![' ']),
{
    let words = chars_of_all(args);
    let sep: Vec<char> = vec![' '];
    assert(sep@ =~= seq![' ']);
    assert(views(words@).skip(0) =~= views(words@));
    string_of(&join_from(&words, 0, &sep))
}

/// Whether the `alias` builtin can read its arguments `args` (see
/// `alias_defs_ok`).
pub fn alias_readable(args: &Vec<String>) -> (b: bool)
    ensures
        b == alias_defs_ok(join(string_views(args@), seq![' '])),
{
    let joined = joined_args(args);
    alias_defs_readable(joined.as_str())
}

/// The `alias` builtin (see `alias_done`).
pub fn alias(state: &mut ShellState, args: &Vec<String>) -> (r: AliasOutcome)
    requires
        alias_defs_ok(join(string_views(args@), seq![' '])),
    ensures
        alias_done(*old(state), *final(state), string_views(args@), r),
{
    let joined = joined_args(args);
    let defs = alias_definitions(joined.as_str());
    assert(pair_views(defs@) =~= alias_defs(joined@));
    if defs.len() > 0 {
        create_alias(state, &defs);
        AliasOutcome::Defined
    } else {
        AliasOutcome::Listing(alias_lines(&state.aliases))
    }
}

} // verus!
