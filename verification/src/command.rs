//! The command line of the terminal interface: `:file <path>`, `:magnet <uri>`, `:q` and
//! `:quit`, their completions, and the expansion of `$VAR`, `${VAR}` and `~` in paths.
use crate::magnet::{has_prefix, magnet_prefix, MagnetURIMeta};
use crate::text::{
    ascii_lowercase, find_white_space, first_white_space, str_eq, to_ascii_lowercase, trim,
    trim_start, trim_start_str, trimmed,
};
use vstd::prelude::*;

verus! {

/// What a command asks for.
#[derive(Debug, Clone, PartialEq, Eq)]
pub enum CommandAction {
    File(String),
    Magnet(String),
    Quit,
}

impl CommandAction {
    /// A short name for the kind of command.
    pub fn kind(&self) -> (k: &'static str)
        ensures
            match self {
                CommandAction::File(_) => k@ == "file"@,
                CommandAction::Magnet(_) => k@ == "magnet"@,
                CommandAction::Quit => k@ == "quit"@,
            },
    {
        match self {
            CommandAction::File(_) => "file",
            CommandAction::Magnet(_) => "magnet",
            CommandAction::Quit => "quit",
        }
    }
}

/// Why a command was refused.
#[derive(Debug, PartialEq, Eq)]
pub enum CommandInputError {
    Empty,
    UnknownCommand(String),
    MissingFilePath,
    FileNotFound(String),
    PathIsNotFile(String),
    MissingMagnetUri,
    InvalidMagnetUri,
}

/// Calls `std::path::Path::exists`. The answer depends on the file system: nothing is
/// stated of it.
#[verifier::external_body]
fn path_exists(path: &str) -> bool {
    std::path::Path::new(path).exists()
}

/// Calls `std::path::Path::is_file`. Whether a regular file is there depends on the file
/// system at the time of the call: nothing is stated of the answer.
#[verifier::external_body]
pub(crate) fn path_is_file(path: &str) -> bool {
    std::path::Path::new(path).is_file()
}

/// A command word and its argument: the text up to the first white space, and the rest
/// without its leading white space.
pub open spec fn spec_split(input: Seq<char>) -> (Seq<char>, Seq<char>) {
    match first_white_space(input) {
        Some(i) => (input.subrange(0, i), trim_start(input.subrange(i, input.len() as int))),
        None => (input, Seq::empty()),
    }
}

/// The result of `:magnet` with argument `argument`.
pub open spec fn magnet_outcome(argument: Seq<char>, r: Result<CommandAction, CommandInputError>) -> bool {
    let uri = trimmed(argument);
    if uri.len() == 0 {
        r matches Err(CommandInputError::MissingMagnetUri)
    } else if !has_prefix(uri, magnet_prefix()) {
        r matches Err(CommandInputError::InvalidMagnetUri)
    } else {
        r matches Ok(CommandAction::Magnet(u)) && u@ == uri
    }
}

/// The result of `:file` for the expanded path `path`, where `exists` and `is_file` tell
/// what is at that path.
pub open spec fn file_outcome(
    path: Seq<char>,
    exists: bool,
    is_file: bool,
    r: Result<CommandAction, CommandInputError>,
) -> bool {
    if !exists {
        r matches Err(CommandInputError::FileNotFound(p)) && p@ == path
    } else if !is_file {
        r matches Err(CommandInputError::PathIsNotFile(p)) && p@ == path
    } else {
        r matches Ok(CommandAction::File(p)) && p@ == path
    }
}

/// Reads commands.
pub struct CommandParser;

impl CommandParser {
    /// Reads a command: `file <path>`, `magnet <uri>`, `q` or `quit`, the command word in any
    /// case. Paths are expanded with `env`, and the file system is asked about them.
    pub fn parse(input: &str, env: &EnvVars) -> (r: Result<CommandAction, CommandInputError>)
        ensures
            trimmed(input@).len() == 0 ==> (r matches Err(CommandInputError::Empty)),
            trimmed(input@).len() > 0 ==> ({
                let (command, argument) = spec_split(trimmed(input@));
                let word = ascii_lowercase(command);
                if word == seq!['f', 'i', 'l', 'e'] {
                    file_command_outcome(argument, env@, r)
                } else if word == seq!['m', 'a', 'g', 'n', 'e', 't'] {
                    magnet_outcome(argument, r)
                } else if word == seq!['q'] || word == seq!['q', 'u', 'i', 't'] {
                    r matches Ok(CommandAction::Quit)
                } else {
                    r matches Err(CommandInputError::UnknownCommand(w)) && w@ == word
                }
            }),
    {
        let input = trim(input);
        if input.unicode_len() == 0 {
            return Err(CommandInputError::Empty);
        }
        let (command, argument) = Self::split(input);
        let word = to_ascii_lowercase(command);
        let w = word.as_str();
        proof {
            reveal_strlit("file");
            reveal_strlit("magnet");
            reveal_strlit("q");
            reveal_strlit("quit");
            assert("file"@ =~= seq!['f', 'i', 'l', 'e']);
            assert("magnet"@ =~= seq!['m', 'a', 'g', 'n', 'e', 't']);
            assert("q"@ =~= seq!['q']);
            assert("quit"@ =~= seq!['q', 'u', 'i', 't']);
        }
        if str_eq(w, "file") {
            Self::parse_file(argument, env)
        } else if str_eq(w, "magnet") {
            Self::parse_magnet(argument)
        } else if str_eq(w, "q") || str_eq(w, "quit") {
            Ok(CommandAction::Quit)
        } else {
            Err(CommandInputError::UnknownCommand(word))
        }
    }

    /// Splits a command into its word and its argument.
    pub fn split(input: &str) -> (r: (&str, &str))
        ensures
            (r.0@, r.1@) == spec_split(input@),
    {
        match find_white_space(input) {
            Some(index) => {
                let n = input.unicode_len();
                let command = input.substring_char(0, index);
                let rest = input.substring_char(index, n);
                (command, trim_start_str(rest))
            },
            None => {
                proof {
                    reveal_strlit("");
                }
                (input, "")
            },
        }
    }

    /// Reads the argument of `:file`: it must name an existing regular file once expanded.
    pub fn parse_file(argument: &str, env: &EnvVars) -> (r: Result<CommandAction, CommandInputError>)
        ensures
            file_command_outcome(argument@, env@, r),
    {
        let argument = trim(argument);
        if argument.unicode_len() == 0 {
            return Err(CommandInputError::MissingFilePath);
        }
        let path = PathExpander::expand(argument, env);
        let exists = path_exists(path.as_str());
        let is_file = exists && path_is_file(path.as_str());
        Self::check_file(path, exists, is_file)
    }

    /// The result of `:file` for an expanded path, given whether something exists there and
    /// whether it is a regular file.
    pub fn check_file(path: String, exists: bool, is_file: bool) -> (r: Result<
        CommandAction,
        CommandInputError,
    >)
        ensures
            file_outcome(path@, exists, is_file, r),
    {
        if !exists {
            Err(CommandInputError::FileNotFound(path))
        } else if !is_file {
            Err(CommandInputError::PathIsNotFile(path))
        } else {
            Ok(CommandAction::File(path))
        }
    }

    /// Reads the argument of `:magnet`: it must be a magnet URI.
    pub fn parse_magnet(argument: &str) -> (r: Result<CommandAction, CommandInputError>)
        ensures
            magnet_outcome(argument@, r),
    {
        let uri = trim(argument);
        if uri.unicode_len() == 0 {
            return Err(CommandInputError::MissingMagnetUri);
        }
        if !MagnetURIMeta::checkIfMagnetURIIsValid(uri) {
            return Err(CommandInputError::InvalidMagnetUri);
        }
        Ok(CommandAction::Magnet(String::from_str(uri)))
    }
}

/// The result of `:file` with argument `argument` in environment `env`: a missing argument
/// is refused; otherwise the expanded path is judged by what the file system says of it.
pub open spec fn file_command_outcome(
    argument: Seq<char>,
    env: Seq<(Seq<char>, Seq<char>)>,
    r: Result<CommandAction, CommandInputError>,
) -> bool {
    if trimmed(argument).len() == 0 {
        r matches Err(CommandInputError::MissingFilePath)
    } else {
        exists|exists: bool, is_file: bool|
            #[trigger] file_outcome(expanded_path(trimmed(argument), env), exists, is_file, r)
    }
}

/// Messages shown while a command runs.
pub struct CommandExecutor;

impl CommandExecutor {
    /// What is shown while a command is carried out.
    pub fn pending_message(action: &CommandAction) -> (m: String)
        ensures
            match action {
                CommandAction::File(p) => m@ == "Opening "@ + p@ + "..."@,
                CommandAction::Magnet(_) => m@ == "Opening magnet URI..."@,
                CommandAction::Quit => m@ == "Quitting..."@,
            },
    {
        match action {
            CommandAction::File(path) => {
                let mut m = String::from_str("Opening ");
                m.append(path.as_str());
                m.append("...");
                m
            },
            CommandAction::Magnet(_) => String::from_str("Opening magnet URI..."),
            CommandAction::Quit => String::from_str("Quitting..."),
        }
    }
}


// ---------------------------------------------------------------------------------------------
// Expansion of paths
// ---------------------------------------------------------------------------------------------

/// A snapshot of the environment variables: names and values.
pub struct EnvVars {
    pub vars: Vec<(String, String)>,
}

impl View for EnvVars {
    type V = Seq<(Seq<char>, Seq<char>)>;

    open spec fn view(&self) -> Seq<(Seq<char>, Seq<char>)> {
        self.vars@.map_values(|e: (String, String)| (e.0@, e.1@))
    }
}

/// The value of the first variable named `name`.
pub open spec fn env_lookup(env: Seq<(Seq<char>, Seq<char>)>, name: Seq<char>) -> Option<Seq<char>>
    decreases env.len(),
{
    if env.len() == 0 {
        None
    } else if env[0].0 == name {
        Some(env[0].1)
    } else {
        env_lookup(env.drop_first(), name)
    }
}

/// A variable is found exactly when some entry of the environment, at any position, has its
/// name; the value found is that of the first such entry.
pub proof fn lemma_env_lookup(env: Seq<(Seq<char>, Seq<char>)>, name: Seq<char>)
    ensures
        (exists|i: int| 0 <= i < env.len() && #[trigger] env[i].0 == name) <==> env_lookup(
            env,
            name,
        ) is Some,
        env_lookup(env, name) matches Some(v) ==> exists|j: int|
            0 <= j < env.len() && #[trigger] env[j].0 == name && env[j].1 == v && forall|k: int|
                0 <= k < j ==> #[trigger] env[k].0 != name,
    decreases env.len(),
{
    if env.len() > 0 {
        let t = env.drop_first();
        lemma_env_lookup(t, name);
        if env[0].0 != name {
            if exists|i: int| 0 <= i < env.len() && #[trigger] env[i].0 == name {
                let i = choose|i: int| 0 <= i < env.len() && #[trigger] env[i].0 == name;
                assert(t[i - 1].0 == name);
            }
            if env_lookup(t, name) is Some {
                let v = env_lookup(t, name)->0;
                let j = choose|j: int|
                    0 <= j < t.len() && #[trigger] t[j].0 == name && t[j].1 == v && forall|k: int|
                        0 <= k < j ==> #[trigger] t[k].0 != name;
                assert(env[j + 1] == t[j]);
                assert forall|k: int| 0 <= k < j + 1 implies #[trigger] env[k].0 != name by {
                    if k > 0 {
                        assert(env[k] == t[k - 1]);
                    }
                }
            }
        }
    }
}

impl EnvVars {
    /// An environment with no variables.
    pub fn new() -> (e: Self)
        ensures
            e@.len() == 0,
    {
        EnvVars { vars: Vec::new() }
    }

    /// The value of the variable named `name`.
    pub fn lookup(&self, name: &str) -> (r: Option<&String>)
        ensures
            match env_lookup(self@, name@) {
                Some(v) => r matches Some(s) && s@ == v,
                None => r is None,
            },
    {
        let ghost env = self@;
        let mut i: usize = 0;
        assert(env.skip(0) =~= env);
        while i < self.vars.len()
            invariant
                i <= self.vars@.len(),
                env == self@,
                env.len() == self.vars@.len(),
                env_lookup(env, name@) == env_lookup(env.skip(i as int), name@),
            decreases self.vars@.len() - i,
        {
            assert(env.skip(i as int).drop_first() =~= env.skip(i + 1));
            assert(env.skip(i as int)[0] == (self.vars@[i as int].0@, self.vars@[i as int].1@));
            if str_eq(self.vars[i].0.as_str(), name) {
                return Some(&self.vars[i].1);
            }
            i = i + 1;
        }
        assert(env.skip(i as int).len() == 0);
        None
    }
}

/// A character that may be part of a variable name after `$`.
pub open spec fn is_name_char(c: char) -> bool {
    c == '_' || ('0' <= c <= '9') || ('a' <= c <= 'z') || ('A' <= c <= 'Z')
}

/// Length of the longest prefix of `s` made of name characters.
pub open spec fn name_len(s: Seq<char>) -> nat
    decreases s.len(),
{
    if s.len() > 0 && is_name_char(s[0]) {
        1 + name_len(s.drop_first())
    } else {
        0
    }
}

/// Position of the first `c` in `s`.
pub open spec fn first_index(s: Seq<char>, c: char) -> Option<int>
    decreases s.len(),
{
    if s.len() == 0 {
        None
    } else if s[0] == c {
        Some(0)
    } else {
        match first_index(s.drop_first(), c) {
            Some(i) => Some(i + 1),
            None => None,
        }
    }
}

/// What `${name}` becomes: the variable's value, `${}` for an empty name, and the text
/// itself for an unknown variable.
pub open spec fn braced_piece(name: Seq<char>, env: Seq<(Seq<char>, Seq<char>)>) -> Seq<char> {
    if name.len() == 0 {
        seq!['$', '{', '}']
    } else {
        match env_lookup(env, name) {
            Some(v) => v,
            None => seq!['$', '{'] + name + seq!['}'],
        }
    }
}

/// What `$name` becomes: the variable's value, `$` for an empty name, and the text itself
/// for an unknown variable.
pub open spec fn plain_piece(name: Seq<char>, env: Seq<(Seq<char>, Seq<char>)>) -> Seq<char> {
    if name.len() == 0 {
        seq!['$']
    } else {
        match env_lookup(env, name) {
            Some(v) => v,
            None => seq!['$'] + name,
        }
    }
}

/// `s` with its variables replaced, left to right. `${` takes the name up to the next `}`
/// (or to the end, when there is none); `$` takes the longest run of letters, digits and
/// `_`.
pub open spec fn expand_vars(s: Seq<char>, env: Seq<(Seq<char>, Seq<char>)>) -> Seq<char>
    decreases s.len(),
{
    if s.len() == 0 {
        Seq::empty()
    } else if s[0] != '$' {
        seq![s[0]] + expand_vars(s.drop_first(), env)
    } else if s.len() >= 2 && s[1] == '{' {
        let rest = s.subrange(2, s.len() as int);
        match first_index(rest, '}') {
            Some(k) => if 0 <= k < rest.len() {
                braced_piece(rest.subrange(0, k), env) + expand_vars(
                    rest.subrange(k + 1, rest.len() as int),
                    env,
                )
            } else {
                Seq::empty()
            },
            None => braced_piece(rest, env),
        }
    } else {
        let n = name_len(s.drop_first()) as int;
        if n < s.len() {
            plain_piece(s.subrange(1, 1 + n), env) + expand_vars(s.subrange(1 + n, s.len() as int), env)
        } else {
            Seq::empty()
        }
    }
}

/// `home` joined with `rest` as a path: `rest` if it is absolute or `home` is empty,
/// otherwise the two with one `/` between them.
pub open spec fn path_join(home: Seq<char>, rest: Seq<char>) -> Seq<char> {
    if rest.len() > 0 && rest[0] == '/' {
        rest
    } else if home.len() == 0 {
        rest
    } else if home.last() == '/' {
        home + rest
    } else {
        home + seq!['/'] + rest
    }
}

/// A path with its variables replaced, then `~` or a leading `~/` replaced by `HOME` when
/// it is set.
pub open spec fn expanded_path(path: Seq<char>, env: Seq<(Seq<char>, Seq<char>)>) -> Seq<char> {
    let e = expand_vars(path, env);
    let home = env_lookup(env, seq!['H', 'O', 'M', 'E']);
    if e == seq!['~'] {
        match home {
            Some(h) => h,
            None => e,
        }
    } else if e.len() >= 2 && e[0] == '~' && e[1] == '/' {
        match home {
            Some(h) => path_join(h, e.subrange(2, e.len() as int)),
            None => e,
        }
    } else {
        e
    }
}

proof fn lemma_first_index_scan(s: Seq<char>, c: char, k: int)
    requires
        0 <= k <= s.len(),
        forall|m: int| 0 <= m < k ==> s[m] != c,
        k < s.len() ==> s[k] == c,
    ensures
        first_index(s, c) == (if k < s.len() { Some(k) } else { None::<int> }),
    decreases k,
{
    if k > 0 {
        lemma_first_index_scan(s.drop_first(), c, k - 1);
    }
}

proof fn lemma_name_len_scan(s: Seq<char>, k: int)
    requires
        0 <= k <= s.len(),
        forall|m: int| 0 <= m < k ==> is_name_char(#[trigger] s[m]),
        k < s.len() ==> !is_name_char(s[k]),
    ensures
        name_len(s) == k,
    decreases k,
{
    if k > 0 {
        lemma_name_len_scan(s.drop_first(), k - 1);
    }
}

/// `$NAME`, where NAME is a maximal run of ASCII letters, digits and `_` and is set in the
/// environment, is replaced by the variable's value; the text after it is expanded in turn.
pub proof fn lemma_expand_set_variable(
    name: Seq<char>,
    rest: Seq<char>,
    value: Seq<char>,
    env: Seq<(Seq<char>, Seq<char>)>,
)
    requires
        name.len() > 0,
        forall|i: int|
            0 <= i < name.len() ==> (#[trigger] name[i] == '_' || ('0' <= name[i] <= '9') || (
            'a' <= name[i] <= 'z') || ('A' <= name[i] <= 'Z')),
        rest.len() > 0 ==> !(rest[0] == '_' || ('0' <= rest[0] <= '9') || ('a' <= rest[0]
            <= 'z') || ('A' <= rest[0] <= 'Z')),
        env_lookup(env, name) == Some(value),
    ensures
        expand_vars(seq!['$'] + name + rest, env) == value + expand_vars(rest, env),
{
    let s = seq!['$'] + name + rest;
    let tail = name + rest;
    assert(s.drop_first() == tail);
    assert forall|m: int| 0 <= m < name.len() implies is_name_char(#[trigger] tail[m]) by {
        assert(tail[m] == name[m]);
    }
    if name.len() < tail.len() {
        assert(tail[name.len() as int] == rest[0]);
    }
    lemma_name_len_scan(tail, name.len() as int);
    assert(s[1] == name[0]);
    assert(s.subrange(1, 1 + name.len() as int) == name);
    assert(s.subrange(1 + name.len() as int, s.len() as int) == rest);
}

/// Whether a character may be part of a variable name.
fn name_char(c: char) -> (b: bool)
    ensures
        b == is_name_char(c),
{
    c == '_' || ('0' <= c && c <= '9') || ('a' <= c && c <= 'z') || ('A' <= c && c <= 'Z')
}

/// Expands variables and `~` in paths.
pub struct PathExpander;

/// `home` joined with `rest` as a path.
pub(crate) fn join_path(home: &str, rest: &str) -> (r: String)
    ensures
        r@ == path_join(home@, rest@),
{
    let h = home.unicode_len();
    if rest.unicode_len() > 0 && rest.get_char(0) == '/' {
        return String::from_str(rest);
    }
    if h == 0 {
        return String::from_str(rest);
    }
    let mut joined = String::from_str(home);
    if home.get_char(h - 1) != '/' {
        joined.append("/");
        proof {
            reveal_strlit("/");
        }
    }
    joined.append(rest);
    joined
}

impl PathExpander {
    /// Expands variables, then `~` or a leading `~/`, with `HOME` from `env`.
    pub fn expand(path: &str, env: &EnvVars) -> (r: String)
        ensures
            r@ == expanded_path(path@, env@),
    {
        let e = Self::expand_env_vars(path, env);
        let es = e.as_str();
        let n = es.unicode_len();
        proof {
            reveal_strlit("HOME");
            assert("HOME"@ =~= seq!['H', 'O', 'M', 'E']);
        }
        if n == 1 && es.get_char(0) == '~' {
            assert(es@ =~= seq!['~']);
            return match env.lookup("HOME") {
                Some(h) => h.clone(),
                None => e,
            };
        }
        if n >= 2 && es.get_char(0) == '~' && es.get_char(1) == '/' {
            assert(es@ != seq!['~']);
            return match env.lookup("HOME") {
                Some(h) => join_path(h.as_str(), es.substring_char(2, n)),
                None => e,
            };
        }
        proof {
            if es@ == seq!['~'] {
                assert(es@.len() == 1);
            }
        }
        e
    }

    /// Replaces `$NAME` and `${NAME}` by the values of the variables in `env`.
    pub fn expand_env_vars(path: &str, env: &EnvVars) -> (r: String)
        ensures
            r@ == expand_vars(path@, env@),
    {
        let n = path.unicode_len();
        let mut out = String::new();
        let mut i: usize = 0;
        assert(path@.subrange(0, n as int) =~= path@);
        while i < n
            invariant
                i <= n,
                n == path@.len(),
                out@ + expand_vars(path@.subrange(i as int, n as int), env@) == expand_vars(
                    path@,
                    env@,
                ),
            decreases n - i,
        {
            let ghost t = path@.subrange(i as int, n as int);
            let c = path.get_char(i);
            assert(t[0] == c);
            if c != '$' {
                let ghost before = out@;
                out.append(path.substring_char(i, i + 1));
                proof {
                    assert(t.drop_first() =~= path@.subrange(i + 1, n as int));
                    assert(path@.subrange(i as int, i + 1) =~= seq![c]);
                    assert(expand_vars(t, env@) == seq![c] + expand_vars(t.drop_first(), env@));
                    assert(out@ + expand_vars(path@.subrange(i + 1, n as int), env@) =~= before + (
                    seq![c] + expand_vars(t.drop_first(), env@)));
                }
                i = i + 1;
            } else if i + 1 < n && path.get_char(i + 1) == '{' {
                let mut j = i + 2;
                while j < n && path.get_char(j) != '}'
                    invariant
                        i + 2 <= j <= n,
                        n == path@.len(),
                        forall|m: int| i + 2 <= m < j ==> path@[m] != '}',
                    decreases n - j,
                {
                    j = j + 1;
                }
                let name = path.substring_char(i + 2, j);
                let ghost before = out@;
                if name.unicode_len() == 0 {
                    out.append("${}");
                    proof {
                        reveal_strlit("${}");
                    }
                } else {
                    match env.lookup(name) {
                        Some(value) => out.append(value.as_str()),
                        None => {
                            out.append("${");
                            out.append(name);
                            out.append("}");
                            proof {
                                reveal_strlit("${");
                                reveal_strlit("}");
                            }
                        },
                    }
                }
                proof {
                    let rest = t.subrange(2, t.len() as int);
                    assert(rest =~= path@.subrange(i + 2, n as int));
                    assert(t[1] == '{');
                    lemma_first_index_scan(rest, '}', j - (i + 2));
                    assert(name@ == rest.subrange(0, j - (i + 2)));
                    assert(out@ =~= before + braced_piece(name@, env@));
                    if j < n {
                        assert(rest.subrange(j - (i + 2) + 1, rest.len() as int) =~= path@.subrange(
                            j + 1,
                            n as int,
                        ));
                    } else {
                        assert(rest.subrange(0, j - (i + 2)) =~= rest);
                        assert(path@.subrange(n as int, n as int) =~= Seq::<char>::empty());
                    }
                }
                i = if j < n {
                    j + 1
                } else {
                    n
                };
            } else {
                let mut j = i + 1;
                while j < n && name_char(path.get_char(j))
                    invariant
                        i + 1 <= j <= n,
                        n == path@.len(),
                        forall|m: int| i + 1 <= m < j ==> is_name_char(#[trigger] path@[m]),
                    decreases n - j,
                {
                    j = j + 1;
                }
                let name = path.substring_char(i + 1, j);
                let ghost before = out@;
                if name.unicode_len() == 0 {
                    out.append("$");
                    proof {
                        reveal_strlit("$");
                    }
                } else {
                    match env.lookup(name) {
                        Some(value) => out.append(value.as_str()),
                        None => {
                            out.append("$");
                            out.append(name);
                            proof {
                                reveal_strlit("$");
                            }
                        },
                    }
                }
                proof {
                    let u = t.drop_first();
                    assert(u =~= path@.subrange(i + 1, n as int));
                    assert forall|m: int| 0 <= m < j - (i + 1) implies is_name_char(#[trigger] u[m]) by {
                        assert(u[m] == path@[m + i + 1]);
                    }
                    lemma_name_len_scan(u, j - (i + 1));
                    assert(name@ == t.subrange(1, 1 + (j - (i + 1))));
                    assert(out@ =~= before + plain_piece(name@, env@));
                    assert(t.subrange(1 + (j - (i + 1)), t.len() as int) =~= path@.subrange(
                        j as int,
                        n as int,
                    ));
                    if i + 1 < n {
                        assert(t[1] == path@[i + 1]);
                    }
                }
                i = j;
            }
        }
        out
    }
}


// ---------------------------------------------------------------------------------------------
// Completions
// ---------------------------------------------------------------------------------------------

/// The commands offered while nothing is typed.
pub open spec fn all_commands() -> Seq<Seq<char>> {
    seq![
        seq!['f', 'i', 'l', 'e', ' '],
        seq!['m', 'a', 'g', 'n', 'e', 't', ' '],
        seq!['q'],
        seq!['q', 'u', 'i', 't'],
    ]
}

/// The commands whose word starts with `typed`.
pub open spec fn matching_commands(typed: Seq<char>) -> Seq<Seq<char>> {
    all_commands().filter(|c: Seq<char>| has_prefix_chars(trim_end_spaces(c), typed))
}

/// Whether `s` starts with `prefix`.
pub open spec fn has_prefix_chars(s: Seq<char>, prefix: Seq<char>) -> bool {
    has_prefix(s, prefix)
}

/// A command text without its trailing space.
pub open spec fn trim_end_spaces(c: Seq<char>) -> Seq<char> {
    crate::text::trim_end(c)
}

/// Where completions come from: a fixed list, or the entries of a directory.
pub enum SuggestionPlan {
    Ready(Vec<String>),
    Files(FileCompletionQuery),
}

/// A directory to list for path completions: the directory, the text shown before each
/// entry name, and the prefix entry names must start with.
#[derive(Debug)]
pub struct FileCompletionQuery {
    pub directory: String,
    pub display_parent: String,
    pub prefix: String,
}

/// Offers completions for the command line.
pub struct CommandSuggester;

/// The characters of each text.
pub open spec fn texts_of(v: Seq<String>) -> Seq<Seq<char>> {
    v.map_values(|s: String| s@)
}

impl CommandSuggester {
    /// The fixed completions of a command line, or the directory to list for `:file`. With
    /// nothing typed, every command; while the command word is typed, the commands it starts;
    /// after `magnet `, the start of a magnet URI; after another word, nothing.
    pub fn plan(input: &str, env: &EnvVars, current_dir: &str) -> (r: SuggestionPlan)
        ensures
            trim_start(input@).len() == 0 ==> (r matches SuggestionPlan::Ready(v) && texts_of(v@)
                == all_commands()),
            trim_start(input@).len() > 0 && first_white_space(trim_start(input@)) is None ==> (r matches SuggestionPlan::Ready(v) && texts_of(v@)
                == matching_commands(trim_start(input@))),
            first_white_space(trim_start(input@)) is Some ==> ({
                let (command, argument) = spec_split(trim_start(input@));
                let word = ascii_lowercase(command);
                if word == seq!['f', 'i', 'l', 'e'] {
                    r matches SuggestionPlan::Files(q) && exists|is_dir: bool|
                        #[trigger] completion_query(argument, env@, current_dir@, is_dir) == (
                            q.directory@,
                            q.display_parent@,
                            q.prefix@,
                        )
                } else if word == seq!['m', 'a', 'g', 'n', 'e', 't'] {
                    r matches SuggestionPlan::Ready(v) && texts_of(v@) == seq![
                        "magnet magnet:?xt=urn:btih:"@,
                    ]
                } else {
                    r matches SuggestionPlan::Ready(v) && v@.len() == 0
                }
            }),
    {
        let input = trim_start_str(input);
        if input.unicode_len() == 0 {
            let v = Self::commands_starting_with("");
            proof {
                reveal_strlit("");
                assert forall|c: Seq<char>| #[trigger] has_prefix_chars(trim_end_spaces(c), ""@) by {
                    assert(trim_end_spaces(c).subrange(0, 0) =~= ""@);
                }
                reveal_with_fuel(vstd::seq::Seq::filter, 5);
                let p = |c: Seq<char>| has_prefix_chars(trim_end_spaces(c), ""@);
                assert(p(all_commands()[0]) && p(all_commands()[1]) && p(all_commands()[2]) && p(all_commands()[3]));
                assert(matching_commands(""@) =~= all_commands());
            }
            return SuggestionPlan::Ready(v);
        }
        match find_white_space(input) {
            None => SuggestionPlan::Ready(Self::commands_starting_with(input)),
            Some(_) => {
                let (command, argument) = CommandParser::split(input);
                let word = to_ascii_lowercase(command);
                proof {
                    reveal_strlit("file");
                    reveal_strlit("magnet");
                    assert("file"@ =~= seq!['f', 'i', 'l', 'e']);
                    assert("magnet"@ =~= seq!['m', 'a', 'g', 'n', 'e', 't']);
                }
                if str_eq(word.as_str(), "file") {
                    let q = FileCompletionQuery::new(argument, env, current_dir);
                    assert(spec_split(trim_start(input@)).1 == argument@);
                    assert(ascii_lowercase(spec_split(trim_start(input@)).0) == seq!['f', 'i', 'l', 'e']);
                    SuggestionPlan::Files(q)
                } else if str_eq(word.as_str(), "magnet") {
                    let mut v: Vec<String> = Vec::new();
                    v.push(String::from_str("magnet magnet:?xt=urn:btih:"));
                    assert(texts_of(v@) =~= seq!["magnet magnet:?xt=urn:btih:"@]);
                    SuggestionPlan::Ready(v)
                } else {
                    SuggestionPlan::Ready(Vec::new())
                }
            },
        }
    }

    /// The commands whose word starts with `typed`, in the order `file `, `magnet `, `q`,
    /// `quit`.
    fn commands_starting_with(typed: &str) -> (v: Vec<String>)
        ensures
            texts_of(v@) == matching_commands(typed@),
    {
        let mut v: Vec<String> = Vec::new();
        proof {
            reveal_strlit("file");
            reveal_strlit("magnet");
            reveal_strlit("q");
            reveal_strlit("quit");
            reveal_strlit("file ");
            reveal_strlit("magnet ");
            assert(crate::text::is_white_space(' '));
            assert(!crate::text::is_white_space('e'));
            assert(!crate::text::is_white_space('t'));
            assert(!crate::text::is_white_space('q'));
            assert(crate::text::trim_end(seq!['f', 'i', 'l', 'e', ' ']) =~= seq!['f', 'i', 'l', 'e']) by {
                assert(seq!['f', 'i', 'l', 'e', ' '].drop_last() =~= seq!['f', 'i', 'l', 'e']);
                assert(crate::text::trim_end(seq!['f', 'i', 'l', 'e']) == seq!['f', 'i', 'l', 'e']);
            }
            assert(crate::text::trim_end(seq!['m', 'a', 'g', 'n', 'e', 't', ' ']) =~= seq!['m', 'a', 'g', 'n', 'e', 't']) by {
                assert(seq!['m', 'a', 'g', 'n', 'e', 't', ' '].drop_last() =~= seq!['m', 'a', 'g', 'n', 'e', 't']);
                assert(crate::text::trim_end(seq!['m', 'a', 'g', 'n', 'e', 't']) == seq!['m', 'a', 'g', 'n', 'e', 't']);
            }
            assert(crate::text::trim_end(seq!['q']) =~= seq!['q']);
            assert(crate::text::trim_end(seq!['q', 'u', 'i', 't']) =~= seq!['q', 'u', 'i', 't']);
        }
        let f = starts_with_str("file", typed);
        let m = starts_with_str("magnet", typed);
        let q = starts_with_str("q", typed);
        let qu = starts_with_str("quit", typed);
        if f {
            v.push(String::from_str("file "));
        }
        if m {
            v.push(String::from_str("magnet "));
        }
        if q {
            v.push(String::from_str("q"));
        }
        if qu {
            v.push(String::from_str("quit"));
        }
        proof {
            assert("file"@ =~= seq!['f', 'i', 'l', 'e']);
            assert("magnet"@ =~= seq!['m', 'a', 'g', 'n', 'e', 't']);
            assert("q"@ =~= seq!['q']);
            assert("quit"@ =~= seq!['q', 'u', 'i', 't']);
            assert("file "@ =~= seq!['f', 'i', 'l', 'e', ' ']);
            assert("magnet "@ =~= seq!['m', 'a', 'g', 'n', 'e', 't', ' ']);
            reveal_with_fuel(vstd::seq::Seq::filter, 5);
            assert(texts_of(v@) =~= matching_commands(typed@));
        }
        v
    }

    /// The text shown for a completion: after `file` or `magnet`, the completion without that
    /// command; otherwise the completion after `:`.
    pub fn display(input: &str, suggestion: &str) -> (r: String)
        ensures
            ({
                let word = ascii_lowercase(spec_split(trim_start(input@)).0);
                if word == seq!['f', 'i', 'l', 'e'] {
                    r@ == strip_or_keep(suggestion@, seq!['f', 'i', 'l', 'e', ' '])
                } else if word == seq!['m', 'a', 'g', 'n', 'e', 't'] {
                    r@ == strip_or_keep(suggestion@, seq!['m', 'a', 'g', 'n', 'e', 't', ' '])
                } else {
                    r@ == seq![':'] + suggestion@
                }
            }),
    {
        let (command, _) = CommandParser::split(trim_start_str(input));
        let word = to_ascii_lowercase(command);
        proof {
            reveal_strlit("file");
            reveal_strlit("magnet");
            reveal_strlit(":");
            assert("file"@ =~= seq!['f', 'i', 'l', 'e']);
            assert("magnet"@ =~= seq!['m', 'a', 'g', 'n', 'e', 't']);
        }
        if str_eq(word.as_str(), "file") {
            strip_prefix_or_keep(suggestion, &['f', 'i', 'l', 'e', ' '])
        } else if str_eq(word.as_str(), "magnet") {
            strip_prefix_or_keep(suggestion, &['m', 'a', 'g', 'n', 'e', 't', ' '])
        } else {
            let mut r = String::from_str(":");
            r.append(suggestion);
            r
        }
    }
}

/// `s` without `prefix` if it starts with it, else `s`.
pub open spec fn strip_or_keep(s: Seq<char>, prefix: Seq<char>) -> Seq<char> {
    if has_prefix(s, prefix) {
        s.subrange(prefix.len() as int, s.len() as int)
    } else {
        s
    }
}

fn strip_prefix_or_keep(s: &str, prefix: &[char]) -> (r: String)
    ensures
        r@ == strip_or_keep(s@, prefix@),
{
    if crate::text::starts_with_chars(s, prefix) {
        String::from_str(s.substring_char(prefix.len(), s.unicode_len()))
    } else {
        String::from_str(s)
    }
}

/// Whether the characters of `s` start with those of `prefix`.
pub(crate) fn starts_with_str(s: &str, prefix: &str) -> (b: bool)
    ensures
        b == has_prefix(s@, prefix@),
{
    let n = prefix.unicode_len();
    if s.unicode_len() < n {
        return false;
    }
    let mut i: usize = 0;
    while i < n
        invariant
            i <= n <= s@.len(),
            n == prefix@.len(),
            s@.subrange(0, i as int) == prefix@.subrange(0, i as int),
        decreases n - i,
    {
        if s.get_char(i) != prefix.get_char(i) {
            assert(s@.subrange(0, n as int)[i as int] != prefix@[i as int]);
            return false;
        }
        assert(s@.subrange(0, i + 1) =~= s@.subrange(0, i as int).push(s@[i as int]));
        assert(prefix@.subrange(0, i + 1) =~= prefix@.subrange(0, i as int).push(prefix@[i as int]));
        i = i + 1;
    }
    assert(prefix@.subrange(0, n as int) =~= prefix@);
    true
}


/// Calls `std::path::Path::is_dir`. The answer depends on the file system: nothing is
/// stated of it.
#[verifier::external_body]
fn path_is_dir(path: &str) -> bool {
    std::path::Path::new(path).is_dir()
}

/// The query for completing the path `argument` (after its leading white space) when
/// `is_dir` tells whether its expansion is a directory.
pub open spec fn completion_query(
    argument: Seq<char>,
    env: Seq<(Seq<char>, Seq<char>)>,
    current_dir: Seq<char>,
    is_dir: bool,
) -> (Seq<char>, Seq<char>, Seq<char>) {
    let a = trim_start(argument);
    if a.len() == 0 {
        (current_dir, Seq::empty(), Seq::empty())
    } else if a.last() == '/' {
        (expanded_path(a, env), a, Seq::empty())
    } else if is_dir {
        (expanded_path(a, env), a + seq!['/'], Seq::empty())
    } else {
        match crate::text::last_index_of(a, '/') {
            Some(i) => (expanded_path(a.subrange(0, i + 1), env), a.subrange(0, i + 1), a.subrange(
                i + 1,
                a.len() as int,
            )),
            None => (expanded_path(seq!['.'], env), Seq::empty(), a),
        }
    }
}

impl FileCompletionQuery {
    /// The directory to list, the text shown before entry names and the prefix they must
    /// start with, for completing `argument`; `current_dir` is listed when nothing is typed.
    /// Whether the expanded argument is a directory is asked of the file system.
    pub fn new(argument: &str, env: &EnvVars, current_dir: &str) -> (q: FileCompletionQuery)
        ensures
            exists|is_dir: bool|
                #[trigger] completion_query(argument@, env@, current_dir@, is_dir) == (
                    q.directory@,
                    q.display_parent@,
                    q.prefix@,
                ),
    {
        let a = trim_start_str(argument);
        let n = a.unicode_len();
        if n == 0 {
            let q = FileCompletionQuery {
                directory: String::from_str(current_dir),
                display_parent: String::new(),
                prefix: String::new(),
            };
            assert(completion_query(argument@, env@, current_dir@, false) == (
                q.directory@,
                q.display_parent@,
                q.prefix@,
            ));
            return q;
        }
        proof {
            crate::text::lemma_trim_start_idempotent(argument@);
            assert(completion_query(argument@, env@, current_dir@, true) == completion_query(a@, env@, current_dir@, true));
            assert(completion_query(argument@, env@, current_dir@, false) == completion_query(a@, env@, current_dir@, false));
        }
        let expanded = PathExpander::expand(a, env);
        let ends_with_slash = a.get_char(n - 1) == '/';
        let is_dir = !ends_with_slash && path_is_dir(expanded.as_str());
        Self::from_probe(a, env, current_dir, is_dir, expanded)
    }

    fn from_probe(a: &str, env: &EnvVars, current_dir: &str, is_dir: bool, expanded: String) -> (q:
        FileCompletionQuery)
        requires
            a@.len() > 0,
            trim_start(a@) == a@,
            expanded@ == expanded_path(a@, env@),
        ensures
            completion_query(a@, env@, current_dir@, is_dir) == (
                q.directory@,
                q.display_parent@,
                q.prefix@,
            ),
    {
        let n = a.unicode_len();
        if a.get_char(n - 1) == '/' {
            return FileCompletionQuery {
                directory: expanded,
                display_parent: String::from_str(a),
                prefix: String::new(),
            };
        }
        if is_dir {
            let mut display_parent = String::from_str(a);
            display_parent.append("/");
            proof {
                reveal_strlit("/");
            }
            return FileCompletionQuery { directory: expanded, display_parent, prefix: String::new() };
        }
        match crate::text::rfind_char(a, '/') {
            Some(i) => {
                let parent = a.substring_char(0, i + 1);
                FileCompletionQuery {
                    directory: PathExpander::expand(parent, env),
                    display_parent: String::from_str(parent),
                    prefix: String::from_str(a.substring_char(i + 1, n)),
                }
            },
            None => {
                proof {
                    reveal_strlit(".");
                    assert("."@ =~= seq!['.']);
                }
                FileCompletionQuery {
                    directory: PathExpander::expand(".", env),
                    display_parent: String::new(),
                    prefix: String::from_str(a),
                }
            },
        }
    }
}
} // verus!
