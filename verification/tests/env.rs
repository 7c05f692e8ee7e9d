use ominiforge::env::{apply_overlay, basename, detect_env, env_value, EnvMap};

fn env(pairs: &[(&str, &str)]) -> EnvMap {
    EnvMap::from_pairs(pairs.iter().map(|(k, v)| ((*k).to_owned(), Some((*v).to_owned()))).collect())
}

#[test]
fn detect_env_without_activation_signal_is_empty() {
    assert!(detect_env(&EnvMap::new()).is_empty());
}

#[test]
fn detect_env_reports_activation_signals_in_fixed_order() {
    let env = env(&[
        ("CONDA_PREFIX", "/tmp/conda"),
        ("IN_NIX_SHELL", "impure"),
        ("name", "nix-shell-env"),
        ("VIRTUAL_ENV", "/tmp/.venv"),
    ]);
    assert_eq!(
        detect_env(&env),
        vec!["dev shell: impure (nix-shell-env)", "venv: .venv", "conda: conda"]
    );
}

#[test]
fn detect_env_ignores_nix_profiles_without_dev_shell() {
    let env = env(&[("NIX_PROFILES", "/nix/profile")]);
    assert!(detect_env(&env).is_empty());
}

#[test]
fn detect_env_reports_plain_direnv() {
    let env = env(&[("DIRENV_FILE", "/tmp/.envrc")]);
    assert_eq!(detect_env(&env), vec!["direnv: .envrc"]);
}

#[test]
fn detect_env_prefers_specific_signal_over_direnv() {
    let env = env(&[("DIRENV_FILE", "/tmp/.envrc"), ("IN_NIX_SHELL", "impure")]);
    assert_eq!(detect_env(&env), vec!["dev shell: impure"]);
}

#[test]
fn detect_env_prefers_conda_default_env_name() {
    let env = env(&[("CONDA_DEFAULT_ENV", "base"), ("CONDA_PREFIX", "/tmp/conda-prefix")]);
    assert_eq!(detect_env(&env), vec!["conda: base"]);
}

#[test]
fn apply_overlay_preserves_existing_activation_signals() {
    let mut base = env(&[("IN_NIX_SHELL", "impure")]);
    apply_overlay(&mut base, env(&[("DIRENV_FILE", "/tmp/.envrc")]));
    assert_eq!(detect_env(&base), vec!["dev shell: impure"]);
}

#[test]
fn overlay_removal_unsets_a_variable() {
    let mut base = env(&[("VIRTUAL_ENV", "/tmp/.venv"), ("HOME", "/root")]);
    apply_overlay(&mut base, EnvMap::from_pairs(vec![("VIRTUAL_ENV".to_owned(), None)]));
    assert_eq!(base.get("VIRTUAL_ENV"), Some(&None));
    assert_eq!(base.get("HOME"), Some(&Some("/root".to_owned())));
    assert_eq!(base.get("PATH"), None);
    assert!(detect_env(&base).is_empty());
    assert_eq!(env_value(&base, "VIRTUAL_ENV"), None);
    assert_eq!(env_value(&base, "HOME"), Some("/root".to_owned()));
}

#[test]
fn later_assignments_win() {
    let mut e = env(&[("A", "1"), ("A", "2")]);
    assert_eq!(e.get("A"), Some(&Some("2".to_owned())));
    e.insert("A".to_owned(), Some("3".to_owned()));
    assert_eq!(env_value(&e, "A"), Some("3".to_owned()));
    assert_eq!(e.entries().len(), 3);
}

#[test]
fn blank_activation_values_are_ignored() {
    let e = env(&[("VIRTUAL_ENV", ""), ("IN_NIX_SHELL", "pure")]);
    assert_eq!(detect_env(&e), vec!["dev shell: pure"]);
}

#[test]
fn basename_is_the_last_component() {
    assert_eq!(basename("/tmp/.venv"), ".venv");
    assert_eq!(basename("/tmp/conda/"), "conda");
    assert_eq!(basename("plain"), "plain");
}
