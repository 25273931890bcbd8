use hyperblow::completion::{FilePathSuggester, ListedEntry};
use hyperblow::command::{
    CommandAction, CommandExecutor, CommandInputError, CommandParser, CommandSuggester, EnvVars, FileCompletionQuery,
    PathExpander, SuggestionPlan,
};

const VALID_MAGNET: &str = "magnet:?xt=urn:btih:08ada5a7a6183aae1e09d831df6748d566095a10&dn=Example";

fn env(vars: &[(&str, &str)]) -> EnvVars {
    EnvVars { vars: vars.iter().map(|(k, v)| (k.to_string(), v.to_string())).collect() }
}

#[test]
fn parses_magnet_command() {
    assert_eq!(
        CommandParser::parse(&format!("magnet {VALID_MAGNET}"), &EnvVars::new()),
        Ok(CommandAction::Magnet(VALID_MAGNET.to_string()))
    );
}

#[test]
fn rejects_invalid_command_input() {
    assert_eq!(CommandParser::parse("", &EnvVars::new()), Err(CommandInputError::Empty));
    assert_eq!(CommandParser::parse("magnet", &EnvVars::new()), Err(CommandInputError::MissingMagnetUri));
    assert_eq!(
        CommandParser::parse("wat", &EnvVars::new()),
        Err(CommandInputError::UnknownCommand("wat".to_string()))
    );
}

#[test]
fn parses_quit_command() {
    assert_eq!(CommandParser::parse("q", &EnvVars::new()), Ok(CommandAction::Quit));
    assert_eq!(CommandParser::parse("quit", &EnvVars::new()), Ok(CommandAction::Quit));
}

#[test]
fn suggests_quit_commands() {
    let all = match CommandSuggester::plan("", &EnvVars::new(), ".") {
        SuggestionPlan::Ready(v) => v,
        SuggestionPlan::Files(_) => panic!("no file listing for an empty line"),
    };
    assert!(all.contains(&"quit".to_string()));
    let quit = match CommandSuggester::plan("qu", &EnvVars::new(), ".") {
        SuggestionPlan::Ready(v) => v,
        SuggestionPlan::Files(_) => panic!("no file listing for a command word"),
    };
    assert_eq!(quit, vec!["quit".to_string()]);
}

#[test]
fn file_hints_display_paths_without_repeating_command_prefix() {
    assert_eq!(
        CommandSuggester::display("file $HOME", "file $HOME/Downloads/"),
        "$HOME/Downloads/".to_string()
    );
    assert_eq!(CommandSuggester::display("", "file "), ":file ".to_string());
}

#[test]
fn command_words_are_case_insensitive_and_trimmed() {
    assert_eq!(CommandParser::parse("  QUIT  ", &EnvVars::new()), Ok(CommandAction::Quit));
    assert_eq!(
        CommandParser::parse("Wat now", &EnvVars::new()),
        Err(CommandInputError::UnknownCommand("wat".to_string()))
    );
    assert_eq!(CommandParser::parse("magnet   nope", &EnvVars::new()), Err(CommandInputError::InvalidMagnetUri));
    assert_eq!(CommandParser::parse("file   ", &EnvVars::new()), Err(CommandInputError::MissingFilePath));
    assert_eq!(CommandParser::split("file  a b"), ("file", "a b"));
    assert_eq!(CommandParser::split("quit"), ("quit", ""));
}

#[test]
fn file_command_checks_the_expanded_path() {
    assert_eq!(
        CommandParser::parse("file /definitely/not/here.torrent", &EnvVars::new()),
        Err(CommandInputError::FileNotFound("/definitely/not/here.torrent".to_string()))
    );
    assert_eq!(
        CommandParser::check_file("/tmp".to_string(), true, false),
        Err(CommandInputError::PathIsNotFile("/tmp".to_string()))
    );
    assert_eq!(
        CommandParser::check_file("a.torrent".to_string(), true, true),
        Ok(CommandAction::File("a.torrent".to_string()))
    );
}

#[test]
fn expands_environment_variables_in_paths() {
    let vars = env(&[("HOME", "/home/me"), ("X", "y")]);
    assert_eq!(PathExpander::expand_env_vars("$HOME/a", &vars), "/home/me/a");
    assert_eq!(PathExpander::expand_env_vars("${X}z", &vars), "yz");
    assert_eq!(PathExpander::expand_env_vars("$NOPE-${NOPE}", &vars), "$NOPE-${NOPE}");
    assert_eq!(PathExpander::expand_env_vars("$ ${} ${X", &vars), "$ ${} y");
    assert_eq!(PathExpander::expand("~", &vars), "/home/me");
    assert_eq!(PathExpander::expand("~/d", &vars), "/home/me/d");
    assert_eq!(PathExpander::expand("~/d", &EnvVars::new()), "~/d");
    assert_eq!(PathExpander::expand("$HOME", &vars), "/home/me");
    assert_eq!(PathExpander::expand("${HOME}", &vars), "/home/me");
}

#[test]
fn completion_plans() {
    match CommandSuggester::plan("magnet x", &EnvVars::new(), ".") {
        SuggestionPlan::Ready(v) => assert_eq!(v, vec!["magnet magnet:?xt=urn:btih:".to_string()]),
        SuggestionPlan::Files(_) => panic!("magnet has no files"),
    }
    match CommandSuggester::plan("file dir/na", &EnvVars::new(), "/cwd") {
        SuggestionPlan::Files(q) => {
            assert_eq!(q.directory, "dir/");
            assert_eq!(q.display_parent, "dir/");
            assert_eq!(q.prefix, "na");
        }
        SuggestionPlan::Ready(_) => panic!("file lists a directory"),
    }
    let q = FileCompletionQuery::new("", &EnvVars::new(), "/cwd");
    assert_eq!(q.directory, "/cwd");
    assert_eq!(q.prefix, "");
    let q = FileCompletionQuery::new("sub/", &EnvVars::new(), "/cwd");
    assert_eq!(q.display_parent, "sub/");
    assert_eq!(q.prefix, "");
}

#[test]
fn pending_messages() {
    assert_eq!(CommandExecutor::pending_message(&CommandAction::File("a".to_string())), "Opening a...");
    assert_eq!(CommandExecutor::pending_message(&CommandAction::Magnet("m".to_string())), "Opening magnet URI...");
    assert_eq!(CommandExecutor::pending_message(&CommandAction::Quit), "Quitting...");
    assert_eq!(CommandAction::Quit.kind(), "quit");
}

#[test]
fn expands_home_environment_variable_in_file_paths() {
    let home = env(&[("HOME", "/home/rishad")]);

    assert_eq!(PathExpander::expand("$HOME", &home), "/home/rishad".to_string());
    assert_eq!(PathExpander::expand("${HOME}", &home), "/home/rishad".to_string());
}

#[test]
fn suggests_file_paths_and_prioritizes_directories() {
    let parent = "/hyperblow-missing-test-dir";
    let input = format!("file {parent}/a");
    let query = match CommandSuggester::plan(&input, &EnvVars::new(), "/") {
        SuggestionPlan::Files(query) => query,
        SuggestionPlan::Ready(_) => panic!("a file argument lists a directory"),
    };
    assert_eq!(query.display_parent, format!("{parent}/"));
    assert_eq!(query.prefix, "a");
    let entries = vec![
        ListedEntry { name: "alpha.txt".to_string(), is_dir: false },
        ListedEntry { name: "alpha.torrent".to_string(), is_dir: false },
        ListedEntry { name: "alpha_dir".to_string(), is_dir: true },
        ListedEntry { name: "beta".to_string(), is_dir: true },
    ];
    let suggestions = FilePathSuggester::suggestions_from(&query, &entries, 8);
    let display_parent = format!("{parent}/");

    assert_eq!(suggestions.first(), Some(&format!("file {display_parent}alpha_dir/")));
    assert!(suggestions.contains(&format!("file {display_parent}alpha.torrent")));
    assert_eq!(suggestions.len(), 3);
}
