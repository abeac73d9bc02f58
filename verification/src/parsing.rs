//! From a line of input to what the shell does: the stages of a pipeline
//! with their redirections, the expansion of `~`, and the plan for one
//! command after substitution (assignment, builtin, alias expansion, or a
//! program to run).
use crate::patterns::{assignment, assignment_ok, assignment_readable, alias_defs_ok, parse_assignment};
use crate::state::{
    alias, alias_done, alias_readable, create_variable, get_alias, string_views, AliasOutcome, ShellState,
};
use crate::text::{
    append_chars, chars_of, contains, contains_chars, find_from, is_at, join, join_from, lemma_find_from,
    lemma_split_on_nonempty, replace_all, replace_chars, slice_chars, split_on, split_on_chars,
    split_once, split_once_chars, split_words, string_of, trim, trim_chars, views, words,
};
use vstd::prelude::*;

verus! {

broadcast use vstd::string::group_string_axioms;

/// Whether `a` and `b` hold the same characters.
pub fn chars_eq(a: &Vec<char>, b: &Vec<char>) -> (r: bool)
    ensures
        r == (a@ == b@),
{
    if a.len() != b.len() {
        return false;
    }
    let mut i: usize = 0;
    while i < a.len()
        invariant
            a.len() == b.len(),
            i <= a.len(),
            forall|j: int| 0 <= j < i ==> a@[j] == b@[j],
        decreases a.len() - i,
    {
        if a[i] != b[i] {
            return false;
        }
        i = i + 1;
    }
    assert(a@ =~= b@);
    true
}

/// The first word of `s` and the rest of its words joined by single
/// spaces; both empty if `s` has no word.
pub open spec fn split_command(s: Seq<char>) -> (Seq<char>, Seq<char>) {
    let w = words(s);
    if w.len() > 0 {
        (w[0], join(w.skip(1), seq![' ']))
    } else {
        (seq![], seq![])
    }
}

/// A command line split into command and arguments, with the command
/// replaced by what it stands for if it is an alias: the alias's text and
/// the arguments, joined by a space, are split again.
pub open spec fn spec_decompose(s: Seq<char>, aliases: Map<Seq<char>, Seq<char>>) -> (
    Seq<char>,
    Seq<char>,
) {
    let (c, rest) = split_command(s);
    if aliases.contains_key(c) {
        split_command(aliases[c] + seq![' '] + rest)
    } else {
        (c, rest)
    }
}

/// The first word of `v` and the rest of its words joined by single spaces
/// (see `split_command`).
fn split_command_chars(v: &Vec<char>) -> (r: (Vec<char>, Vec<char>))
    ensures
        (r.0@, r.1@) == split_command(v@),
{
    let w = split_words(v);
    if w.len() > 0 {
        let sep: Vec<char> = vec![' '];
        assert(sep@ =~= seq![' ']);
        let rest = join_from(&w, 1, &sep);
        let first = slice_chars(&w[0], 0, w[0].len());
        assert(first@ =~= views(w@)[0]);
        (first, rest)
    } else {
        (Vec::new(), Vec::new())
    }
}

/// Splits a command line into command and arguments, expanding an alias
/// in command position (see `spec_decompose`). There is always a result.
pub fn decompose_command(input: &str, state: &ShellState) -> (r: Option<(String, String)>)
    ensures
        (r matches Some((c, a)) && (c@, a@) == spec_decompose(input@, state.aliases@)),
{
    let v = chars_of(input);
    let (command, rest) = split_command_chars(&v);
    let command_str = string_of(&command);
    match get_alias(state, command_str.as_str()) {
        Some(alias_text) => {
            let mut line = chars_of(alias_text.as_str());
            line.push(' ');
            append_chars(&mut line, &rest);
            assert(line@ =~= alias_text@ + seq![' '] + rest@);
            let (c2, r2) = split_command_chars(&line);
            Some((string_of(&c2), string_of(&r2)))
        },
        None => Some((command_str, string_of(&rest))),
    }
}

/// Without an alias in command position, a command line comes to its first
/// word as the command, and its argument text splits into exactly the
/// words after the first.
pub proof fn law_arguments_are_the_remaining_words(s: Seq<char>, aliases: Map<Seq<char>, Seq<char>>)
    requires
        !aliases.contains_key(split_command(s).0),
    ensures
        words(s).len() > 0 ==> spec_decompose(s, aliases).0 == words(s)[0] && words(
            spec_decompose(s, aliases).1,
        ) == words(s).skip(1),
        words(s).len() == 0 ==> spec_decompose(s, aliases).0.len() == 0 && words(
            spec_decompose(s, aliases).1,
        ).len() == 0,
{
    let w = words(s);
    crate::text::lemma_words_shape(s);
    if w.len() > 0 {
        assert forall|k: int| 0 <= k < w.skip(1).len() implies #[trigger] w.skip(1)[k].len() > 0
            && forall|j: int| 0 <= j < w.skip(1)[k].len() ==> !crate::text::is_ws(w.skip(1)[k][j]) by {
            assert(w.skip(1)[k] == w[k + 1]);
        }
        crate::text::lemma_words_join(w.skip(1));
    } else {
        assert(words(Seq::<char>::empty()) =~= Seq::<Seq<char>>::empty());
    }
}

/// Where the first word of a command line names an alias, the line comes to
/// the words of the alias's text followed by the line's remaining words: the
/// first of them is the command and the argument text splits into the rest,
/// whether or not the line has words after the alias.
pub proof fn law_alias_expands(s: Seq<char>, aliases: Map<Seq<char>, Seq<char>>)
    requires
        words(s).len() > 0,
        aliases.contains_key(words(s)[0]),
    ensures
        ({
            let all = words(aliases[words(s)[0]]) + words(s).skip(1);
            let (c, rest) = spec_decompose(s, aliases);
            &&& all.len() > 0 ==> c == all[0] && words(rest) == all.skip(1)
            &&& all.len() == 0 ==> c.len() == 0 && words(rest).len() == 0
        }),
{
    let w = words(s);
    let a = aliases[w[0]];
    crate::text::lemma_words_shape(s);
    crate::text::lemma_words_shape(a);
    assert forall|k: int| 0 <= k < w.skip(1).len() implies #[trigger] w.skip(1)[k].len() > 0
        && forall|j: int| 0 <= j < w.skip(1)[k].len() ==> !crate::text::is_ws(w.skip(1)[k][j]) by {
        assert(w.skip(1)[k] == w[k + 1]);
    }
    crate::text::lemma_words_join(w.skip(1));
    let rest = join(w.skip(1), seq![' ']);
    crate::text::lemma_words_space_concat(a, rest);
    let all = words(a) + w.skip(1);
    assert(words(a + seq![' '] + rest) == all);
    if all.len() > 0 {
        assert forall|k: int| 0 <= k < all.skip(1).len() implies #[trigger] all.skip(1)[k].len()
            > 0 && forall|j: int| 0 <= j < all.skip(1)[k].len() ==> !crate::text::is_ws(
            all.skip(1)[k][j],
        ) by {
            assert(all.skip(1)[k] == all[k + 1]);
            if k + 1 < words(a).len() {
                assert(all[k + 1] == words(a)[k + 1]);
            } else {
                assert(all[k + 1] == w.skip(1)[k + 1 - words(a).len()]);
            }
        }
        crate::text::lemma_words_join(all.skip(1));
    } else {
        assert(words(Seq::<char>::empty()) =~= Seq::<Seq<char>>::empty());
    }
}

/// The arguments of a command: the words of its argument text.
pub fn get_args(args: &str) -> (r: Vec<String>)
    ensures
        string_views(r@) == words(args@),
{
    let w = split_words(&chars_of(args));
    let mut r: Vec<String> = Vec::new();
    let mut i: usize = 0;
    while i < w.len()
        invariant
            i <= w.len(),
            string_views(r@) == views(w@).take(i as int),
        decreases w.len() - i,
    {
        let ghost before = string_views(r@);
        let s = string_of(&w[i]);
        let ghost sv = s@;
        r.push(s);
        assert(string_views(r@) =~= before.push(sv));
        assert(views(w@).take(i + 1) =~= views(w@).take(i as int).push(sv));
        i = i + 1;
    }
    assert(views(w@).take(w.len() as int) =~= views(w@));
    r
}

/// `input` with every `~` replaced by the home directory `home`.
pub fn expand_home(input: &str, home: &str) -> (r: String)
    ensures
        r@ == replace_all(input@, seq!['~'], home@),
{
    let tilde: Vec<char> = vec!['~'];
    assert(tilde@ =~= seq!['~']);
    string_of(&replace_chars(&chars_of(input), &tilde, &chars_of(home)))
}

/// What a command's output becomes where it was substituted: each of its
/// lines after a space.
pub fn inline_output(out: &str) -> (r: String)
    ensures
        r@ == crate::text::spaced(crate::text::lines(out@)),
{
    string_of(&crate::text::spaced_lines(&chars_of(out)))
}

/// The value of an assignment without one pair of enclosing single or
/// double quotes.
pub open spec fn unquote(v: Seq<char>) -> Seq<char> {
    if v.len() > 0 && v[0] == '\'' && v.last() == '\'' {
        v.subrange(1, v.len() - 1)
    } else if v.len() > 0 && v[0] == '"' && v.last() == '"' {
        v.subrange(1, v.len() - 1)
    } else {
        v
    }
}

/// A value that is one lone quote, which has no enclosing pair to remove.
pub open spec fn lone_quote(v: Seq<char>) -> bool {
    v.len() == 1 && (v[0] == '\'' || v[0] == '"')
}

/// The directory that `cd` changes to: its first argument, or the home
/// directory `home` if it has none.
pub fn cd_target(args: &Vec<String>, home: &str) -> (r: String)
    ensures
        args@.len() > 0 ==> r@ == args@[0]@,
        args@.len() == 0 ==> r@ == home@,
{
    if args.len() > 0 {
        args[0].clone()
    } else {
        string_of(&chars_of(home))
    }
}

/// The prompt shown in the directory `dir`: the last `/`-separated piece of
/// its path, then ` > `.
pub fn prompt_for(dir: &str) -> (r: String)
    ensures
        r@ == split_on(dir@, seq!['/']).last() + seq![' ', '>', ' '],
{
    let slash: Vec<char> = vec!['/'];
    assert(slash@ =~= seq!['/']);
    let pieces = split_on_chars(&chars_of(dir), &slash);
    proof {
        lemma_split_on_nonempty(dir@, seq!['/']);
    }
    let mut last = slice_chars(&pieces[pieces.len() - 1], 0, pieces[pieces.len() - 1].len());
    assert(last@ =~= views(pieces@).last());
    last.push(' ');
    last.push('>');
    last.push(' ');
    assert(last@ =~= split_on(dir@, seq!['/']).last() + seq![' ', '>', ' ']);
    string_of(&last)
}

/// What one command of a pipeline comes to.
pub enum CommandPlan {
    /// It assigned a variable, which is done.
    Assigned,
    /// The `cd` builtin, with its arguments.
    Cd(Vec<String>),
    /// The `exit` builtin.
    Exit,
    /// The `alias` builtin, which is done; what it did.
    Alias(AliasOutcome),
    /// A program to run, with its arguments.
    Run(String, Vec<String>),
    /// There is no command.
    Nothing,
}

pub open spec fn cd_word() -> Seq<char> {
    seq!['c', 'd']
}

pub open spec fn exit_word() -> Seq<char> {
    seq!['e', 'x', 'i', 't']
}

pub open spec fn alias_word() -> Seq<char> {
    seq!['a', 'l', 'i', 'a', 's']
}

/// What planning the command `input`, whose substitutions are done, does
/// from `old` to `new`, answering `r`: an assignment `name=value` sets the
/// variable (without enclosing quotes); otherwise the command is split and
/// its alias expanded (see `spec_decompose`), its argument text split into
/// words, and `cd`, `exit` and `alias` are the builtins. Only an assignment
/// or the `alias` builtin changes the state.
pub open spec fn plan_done(input: Seq<char>, old: ShellState, new: ShellState, r: CommandPlan) -> bool {
    &&& assignment(input) matches Some((n, v)) ==> (r is Assigned && new.variables@
        == old.variables@.insert(n, unquote(v)) && new.aliases == old.aliases)
    &&& assignment(input) is None ==> ({
        let (c, rest) = spec_decompose(input, old.aliases@);
        &&& c == cd_word() ==> (r matches CommandPlan::Cd(a) && string_views(a@) == words(rest))
        &&& c == exit_word() ==> r is Exit
        &&& c == alias_word() ==> (r matches CommandPlan::Alias(o) && alias_done(old, new, words(rest), o))
        &&& c.len() == 0 ==> r is Nothing
        &&& c != cd_word() && c != exit_word() && c != alias_word() && c.len() > 0 ==> (r matches CommandPlan::Run(p, a) && p@ == c && string_views(a@) == words(rest))
        &&& c != alias_word() ==> new == old
    })
}

/// Whether the command `input`, whose substitutions are done, can be
/// planned from `st`: the assignment pattern compiles and its match has its
/// groups, an assigned value is not a lone quote (which has no enclosing
/// pair to remove), and the arguments of the `alias` builtin can be read.
pub open spec fn plan_ok(input: Seq<char>, st: ShellState) -> bool {
    &&& assignment_ok(input)
    &&& !(assignment(input) matches Some((n, v)) && lone_quote(v))
    &&& assignment(input) is None ==> ({
        let (c, rest) = spec_decompose(input, st.aliases@);
        c == alias_word() ==> alias_defs_ok(join(words(rest), seq![' ']))
    })
}

/// Quotes enclosing a value, single or double, are removed, and only one
/// pair of them.
pub proof fn law_unquote_strips_one_pair(v: Seq<char>, q: char)
    requires
        q == '\'' || q == '"',
    ensures
        unquote(seq![q] + v + seq![q]) == v,
{
    let w = seq![q] + v + seq![q];
    assert(w[0] == q);
    assert(w.last() == q);
    assert(w.subrange(1, w.len() - 1) =~= v);
}

/// Plans one command whose substitutions are done (see `plan_done`); where
/// it cannot be planned (see `plan_ok`) there is no plan and nothing
/// changes.
pub fn plan_command(input: &str, state: &mut ShellState) -> (r: Option<CommandPlan>)
    ensures
        r is None <==> !plan_ok(input@, *old(state)),
        r is None ==> *final(state) == *old(state),
        r matches Some(p) ==> plan_done(input@, *old(state), *final(state), p),
{
    if !assignment_readable(input) {
        return None;
    }
    match parse_assignment(input) {
        Some((name, value)) => {
            let value = chars_of(value.as_str());
            let n = value.len();
            if n == 1 && (value[0] == '\'' || value[0] == '"') {
                return None;
            }
            let unquoted = if n > 0 && value[0] == '\'' && value[n - 1] == '\'' {
                slice_chars(&value, 1, n - 1)
            } else if n > 0 && value[0] == '"' && value[n - 1] == '"' {
                slice_chars(&value, 1, n - 1)
            } else {
                value
            };
            create_variable(state, name.as_str(), string_of(&unquoted).as_str());
            return Some(CommandPlan::Assigned);
        },
        None => {},
    }
    let (command, rest) = match decompose_command(input, state) {
        Some(d) => d,
        None => (String::new(), String::new()),
    };
    let args = get_args(rest.as_str());
    let c = chars_of(command.as_str());
    let cd: Vec<char> = vec!['c', 'd'];
    let exit: Vec<char> = vec!['e', 'x', 'i', 't'];
    let al: Vec<char> = vec!['a', 'l', 'i', 'a', 's'];
    assert(cd@ =~= cd_word());
    assert(exit@ =~= exit_word());
    assert(al@ =~= alias_word());
    if chars_eq(&c, &cd) {
        Some(CommandPlan::Cd(args))
    } else if chars_eq(&c, &exit) {
        Some(CommandPlan::Exit)
    } else if chars_eq(&c, &al) {
        if !alias_readable(&args) {
            return None;
        }
        Some(CommandPlan::Alias(alias(state, &args)))
    } else if c.len() == 0 {
        Some(CommandPlan::Nothing)
    } else {
        Some(CommandPlan::Run(command, args))
    }
}

/// Where a command's output goes besides the next command of the pipeline.
#[derive(Clone, Copy, PartialEq, Eq, Structural)]
pub enum WriteMode {
    /// `>`: into a file, made anew.
    New,
    /// `>>`: appended to a file.
    Append,
    /// Nowhere else.
    Plain,
}

/// One command of a pipeline, as planned.
pub struct Stage {
    /// The command text, before any redirection.
    pub command: String,
    /// The file named after the redirection, trimmed; empty if none.
    pub file: String,
    /// The redirection in force for this command.
    pub write_mode: WriteMode,
    /// Whether the command's output is captured rather than shown.
    pub piped: bool,
}

/// A planned stage by its character sequences.
pub struct StageView {
    pub command: Seq<char>,
    pub file: Seq<char>,
    pub write_mode: WriteMode,
    pub piped: bool,
}

impl View for Stage {
    type V = StageView;

    open spec fn view(&self) -> StageView {
        StageView {
            command: self.command@,
            file: self.file@,
            write_mode: self.write_mode,
            piped: self.piped,
        }
    }
}

/// The separator of pipeline commands: ` | `.
pub open spec fn pipe_sep() -> Seq<char> {
    seq![' ', '|', ' ']
}

/// The redirection that a pipeline piece itself asks for: `>>` if it holds
/// two adjacent `>`, else `>` if it holds one, else none.
pub open spec fn piece_mode(piece: Seq<char>) -> WriteMode {
    if contains(piece, seq!['>']) {
        if contains(piece, seq!['>', '>']) {
            WriteMode::Append
        } else {
            WriteMode::New
        }
    } else {
        WriteMode::Plain
    }
}

/// The redirection in force for piece `i`: the one asked for by the last
/// piece up to `i` that asks for one. Once set, it stays for the rest of the
/// pipeline.
pub open spec fn mode_through(pieces: Seq<Seq<char>>, i: int) -> WriteMode
    decreases i + 1,
{
    if i < 0 || i >= pieces.len() {
        WriteMode::Plain
    } else if piece_mode(pieces[i]) != WriteMode::Plain {
        piece_mode(pieces[i])
    } else {
        mode_through(pieces, i - 1)
    }
}

/// A piece split at its redirection: the command before the first `>>`
/// (or `>`) and the file name after it, untrimmed.
pub open spec fn piece_parts(piece: Seq<char>) -> (Seq<char>, Seq<char>) {
    let sep = if piece_mode(piece) == WriteMode::Append {
        seq!['>', '>']
    } else {
        seq!['>']
    };
    if piece_mode(piece) == WriteMode::Plain {
        (piece, seq![])
    } else {
        match split_once(piece, sep) {
            Some(parts) => parts,
            None => (piece, seq![]),
        }
    }
}

/// The stage planned for piece `i` of a pipeline.
pub open spec fn stage_of(pieces: Seq<Seq<char>>, i: int) -> StageView {
    StageView {
        command: piece_parts(pieces[i]).0,
        file: trim(piece_parts(pieces[i]).1),
        write_mode: mode_through(pieces, i),
        piped: i < pieces.len() - 1 || mode_through(pieces, i) != WriteMode::Plain,
    }
}

/// Once a piece of a pipeline asks for a redirection, a redirection stays
/// in force for every later piece; and every stage but the last hands its
/// output on.
pub proof fn law_redirection_persists(pieces: Seq<Seq<char>>, i: int, j: int)
    requires
        0 <= i <= j < pieces.len(),
        piece_mode(pieces[i]) != WriteMode::Plain,
    ensures
        mode_through(pieces, j) != WriteMode::Plain,
        stage_of(pieces, j).write_mode != WriteMode::Plain,
        j < pieces.len() - 1 ==> stage_of(pieces, j).piped,
    decreases j - i,
{
    if j > i && piece_mode(pieces[j]) == WriteMode::Plain {
        law_redirection_persists(pieces, i, j - 1);
    }
}

proof fn lemma_all_plain(pieces: Seq<Seq<char>>, i: int)
    requires
        forall|k: int| 0 <= k < pieces.len() ==> piece_mode(#[trigger] pieces[k]) == WriteMode::Plain,
    ensures
        mode_through(pieces, i) == WriteMode::Plain,
    decreases i + 1,
{
    if 0 <= i < pieces.len() {
        lemma_all_plain(pieces, i - 1);
    }
}

/// The last stage of a pipeline hands its output on (rather than to the
/// terminal) exactly when a redirection is in force for it.
pub proof fn law_last_stage_shows_output(pieces: Seq<Seq<char>>)
    requires
        pieces.len() > 0,
    ensures
        stage_of(pieces, pieces.len() - 1).piped <==> mode_through(pieces, pieces.len() - 1)
            != WriteMode::Plain,
{
}

/// In a pipeline where no piece asks for a redirection, no stage is
/// redirected, and a stage hands its output on exactly when another stage
/// follows it: the last one writes to the terminal.
pub proof fn law_plain_pipeline_piping(pieces: Seq<Seq<char>>)
    requires
        forall|k: int| 0 <= k < pieces.len() ==> piece_mode(#[trigger] pieces[k]) == WriteMode::Plain,
    ensures
        forall|i: int|
            0 <= i < pieces.len() ==> (#[trigger] stage_of(pieces, i)).write_mode == WriteMode::Plain
                && (stage_of(pieces, i).piped <==> i + 1 < pieces.len()),
{
    assert forall|i: int| 0 <= i < pieces.len() implies (#[trigger] stage_of(pieces, i)).write_mode
        == WriteMode::Plain && (stage_of(pieces, i).piped <==> i + 1 < pieces.len()) by {
        lemma_all_plain(pieces, i);
    }
}

/// A piece that asks for a redirection is its command, the redirection
/// (`>>` for an append, else `>`) and the file name, in that order, split at
/// the first occurrence of the redirection, which the command does not hold.
pub proof fn law_redirection_splits_piece(piece: Seq<char>)
    requires
        piece_mode(piece) != WriteMode::Plain,
    ensures
        ({
            let sep = if piece_mode(piece) == WriteMode::Append {
                seq!['>', '>']
            } else {
                seq!['>']
            };
            let (command, file) = piece_parts(piece);
            &&& command + sep + file == piece
            &&& !contains(command, sep)
        }),
{
    let sep = if piece_mode(piece) == WriteMode::Append {
        seq!['>', '>']
    } else {
        seq!['>']
    };
    lemma_find_from(piece, sep, 0);
    let k = find_from(piece, sep, 0)->Some_0;
    let (command, file) = piece_parts(piece);
    assert(command == piece.take(k));
    assert(piece.subrange(k, k + sep.len()) =~= sep);
    assert(command + sep + file =~= piece);
    assert forall|j: int| !is_at(command, sep, j) by {
        if is_at(command, sep, j) {
            assert(command.subrange(j, j + sep.len()) =~= piece.subrange(j, j + sep.len()));
            assert(is_at(piece, sep, j));
            assert(j < k);
        }
    }
}

/// The pieces of a line of input: the trimmed line split at ` | `.
pub open spec fn pipeline_pieces(input: Seq<char>) -> Seq<Seq<char>> {
    split_on(trim(input), pipe_sep())
}

/// Plans a line of input: nothing for a comment (a line that starts with
/// `#`), else one stage for each of its pieces (see `stage_of`).
pub fn plan_pipeline(input: &str) -> (r: Option<Vec<Stage>>)
    ensures
        input@.len() > 0 && input@[0] == '#' ==> r is None,
        !(input@.len() > 0 && input@[0] == '#') ==> (r matches Some(stages) && stages@.len()
            == pipeline_pieces(input@).len() && forall|i: int|
            0 <= i < stages@.len() ==> #[trigger] stages@[i]@ == stage_of(
                pipeline_pieces(input@),
                i,
            )),
{
    let v = chars_of(input);
    if v.len() > 0 && v[0] == '#' {
        return None;
    }
    let t = trim_chars(&v);
    let sep: Vec<char> = vec![' ', '|', ' '];
    assert(sep@ =~= pipe_sep());
    let pieces = split_on_chars(&t, &sep);
    let ghost ps = views(pieces@);
    let one: Vec<char> = vec!['>'];
    let two: Vec<char> = vec!['>', '>'];
    assert(one@ =~= seq!['>']);
    assert(two@ =~= seq!['>', '>']);
    let mut stages: Vec<Stage> = Vec::new();
    let mut mode = WriteMode::Plain;
    let mut i: usize = 0;
    while i < pieces.len()
        invariant
            ps == views(pieces@),
            ps == pipeline_pieces(input@),
            one@ == seq!['>'],
            two@ == seq!['>', '>'],
            i <= pieces.len(),
            mode == mode_through(ps, i - 1),
            stages@.len() == i,
            forall|j: int| 0 <= j < i ==> #[trigger] stages@[j]@ == stage_of(ps, j),
        decreases pieces.len() - i,
    {
        let piece = &pieces[i];
        assert(piece@ == ps[i as int]);
        let (command, file) = if contains_chars(piece, &one) {
            let sep_used = if contains_chars(piece, &two) {
                mode = WriteMode::Append;
                &two
            } else {
                mode = WriteMode::New;
                &one
            };
            proof {
                lemma_find_from(piece@, sep_used@, 0);
            }
            match split_once_chars(piece, sep_used) {
                Some((a, b)) => (a, b),
                None => (slice_chars(piece, 0, piece.len()), Vec::new()),
            }
        } else {
            (slice_chars(piece, 0, piece.len()), Vec::new())
        };
        assert(piece@.subrange(0, piece@.len() as int) =~= piece@);
        let piped = i + 1 < pieces.len() || mode != WriteMode::Plain;
        let stage = Stage {
            command: string_of(&command),
            file: string_of(&trim_chars(&file)),
            write_mode: mode,
            piped,
        };
        assert(stage@ == stage_of(ps, i as int));
        stages.push(stage);
        i = i + 1;
    }
    Some(stages)
}

} // verus!
