use cliargs::errors::InvalidOption;
use cliargs::OptCfgParam::{has_arg, names, store_key};
use cliargs::{Cmd, OptCfg, OptStore};

#[test]
fn command_name_ignores_a_trailing_separator() {
    let cmd = Cmd::with_strings(vec!["/path/to/app/".to_string()]);
    assert_eq!(cmd.name(), "app");
}

#[test]
fn command_name_is_empty_for_a_path_without_a_final_component() {
    let cmd = Cmd::with_strings(vec!["/".to_string()]);
    assert_eq!(cmd.name(), "");
    let cmd = Cmd::with_strings(vec!["path/..".to_string()]);
    assert_eq!(cmd.name(), "");
}

#[test]
fn command_name_of_a_relative_directory_path() {
    let cmd = Cmd::with_strings(vec!["./app".to_string(), "-a".to_string()]);
    assert_eq!(cmd.name(), "app");
}

#[test]
fn non_ascii_short_option_after_an_invalid_one_reports_the_first() {
    let mut cmd = Cmd::with_strings(vec!["app".to_string(), "-1é".to_string()]);
    assert_eq!(
        cmd.parse(),
        Err(InvalidOption::OptionContainsInvalidChar {
            option: "1".to_string()
        })
    );
}

#[test]
fn non_ascii_short_option_is_an_invalid_character() {
    let mut cmd = Cmd::with_strings(vec!["app".to_string(), "-é".to_string(), "x".to_string()]);
    assert_eq!(
        cmd.parse(),
        Err(InvalidOption::OptionContainsInvalidChar {
            option: "é".to_string()
        })
    );
    assert_eq!(cmd.args(), ["x"]);
}

struct Switch {
    on: bool,
    calls: u32,
}

impl OptStore for Switch {
    fn make_opt_cfgs(&self) -> Vec<OptCfg> {
        vec![OptCfg::with(&[names(&["on"])])]
    }

    fn set_field_values(&mut self, m: &[(String, Vec<String>)]) -> Result<(), InvalidOption> {
        self.calls += 1;
        self.on = m.iter().any(|(k, _)| k == "on");
        Ok(())
    }
}

#[test]
fn parse_for_leaves_the_store_alone_on_a_parse_error() {
    let mut store = Switch { on: false, calls: 0 };
    let mut cmd = Cmd::with_strings(vec!["app".to_string(), "--on".to_string(), "--off".to_string()]);
    assert_eq!(
        cmd.parse_for(&mut store),
        Err(InvalidOption::UnconfiguredOption {
            option: "off".to_string()
        })
    );
    assert_eq!(store.calls, 0);
    assert!(!store.on);
    assert_eq!(cmd.opt_cfgs().len(), 1);
}

#[test]
fn parse_for_sets_the_store_from_the_stored_options() {
    let mut store = Switch { on: false, calls: 0 };
    let mut cmd = Cmd::with_strings(vec!["app".to_string(), "--on".to_string()]);
    assert_eq!(cmd.parse_for(&mut store), Ok(()));
    assert_eq!(store.calls, 1);
    assert!(store.on);
}

#[test]
fn a_wrong_configuration_parses_nothing() {
    let mut cmd = Cmd::with_strings(vec!["app".to_string(), "--a".to_string(), "x".to_string()]);
    let cfgs = vec![
        OptCfg::with(&[store_key("k"), names(&["a"])]),
        OptCfg::with(&[store_key("k"), names(&["b"])]),
    ];
    assert_eq!(
        cmd.parse_with(cfgs),
        Err(InvalidOption::StoreKeyIsDuplicated {
            store_key: "k".to_string(),
            name: "b".to_string()
        })
    );
    assert_eq!(cmd.args(), &[] as &[String]);
    assert!(!cmd.has_opt("k"));
    assert!(!cmd.has_opt("a"));
}

#[test]
fn any_store_key_keeps_an_unconfigured_option_under_its_name() {
    let mut cmd = Cmd::with_strings(vec![
        "app".to_string(),
        "--zzz=1".to_string(),
        "--a".to_string(),
    ]);
    let cfgs = vec![OptCfg::with(&[names(&["a"])]), OptCfg::with(&[store_key("*")])];
    assert_eq!(cmd.parse_with(cfgs), Ok(()));
    assert_eq!(cmd.opt_arg("zzz"), Some("1"));
    assert!(cmd.has_opt("a"));
}

#[test]
fn long_option_value_is_everything_after_the_first_equals_sign() {
    let mut cmd = Cmd::with_strings(vec![
        "app".to_string(),
        "--foo-bar=a=b".to_string(),
        "--baz=".to_string(),
        "next".to_string(),
    ]);
    assert_eq!(cmd.parse(), Ok(()));
    assert_eq!(cmd.opt_arg("foo-bar"), Some("a=b"));
    assert_eq!(cmd.opt_arg("baz"), Some(""));
    assert_eq!(cmd.args(), ["next"]);
}

#[test]
fn parsing_until_the_sub_command_reads_nothing_after_it() {
    let cfgs = || vec![OptCfg::with(&[names(&["v"]), has_arg(true)])];
    let mut one = Cmd::with_strings(vec![
        "app".to_string(),
        "-v".to_string(),
        "1".to_string(),
        "sub".to_string(),
        "--x".to_string(),
    ]);
    let mut two = Cmd::with_strings(vec![
        "app".to_string(),
        "-v".to_string(),
        "1".to_string(),
        "sub".to_string(),
        "-@".to_string(),
        "y".to_string(),
    ]);
    let r1 = one.parse_until_sub_cmd_with(cfgs()).unwrap().unwrap();
    let r2 = two.parse_until_sub_cmd_with(cfgs()).unwrap().unwrap();
    assert_eq!(r1.name(), "sub");
    assert_eq!(r2.name(), "sub");
    assert_eq!(one.opt_arg("v"), Some("1"));
    assert_eq!(two.opt_arg("v"), Some("1"));
    assert_eq!(one.args(), two.args());
}
