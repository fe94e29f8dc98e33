use files_to_prompt::traversal::{first_missing, TraversalConfig, WalkSettings};

#[test]
fn default_settings_prune_hidden_paths() {
    let config = TraversalConfig::from_flags(false, false, Vec::new(), false);
    assert_eq!(
        config.walk_settings(),
        WalkSettings {
            hidden: true,
            git_ignore: true,
            git_global: true,
            git_exclude: true,
            require_git: false,
            ignore: true,
        }
    );
}

#[test]
fn hidden_paths_can_be_included() {
    let config = TraversalConfig::from_flags(true, false, Vec::new(), false);
    assert!(!config.walk_settings().hidden);
    assert!(config.walk_settings().git_ignore);
}

#[test]
fn one_switch_turns_every_ignore_file_off() {
    let config = TraversalConfig::from_flags(false, true, vec!["*.log".to_string()], true);
    assert_eq!(
        config.walk_settings(),
        WalkSettings {
            hidden: true,
            git_ignore: false,
            git_global: false,
            git_exclude: false,
            require_git: false,
            ignore: false,
        }
    );
    assert_eq!(config.extra_ignore_patterns, vec!["*.log"]);
    assert!(config.ignore_patterns_file_scope_only);
}

#[test]
fn plain_ignore_files_need_the_rules_of_version_control() {
    let mut config = TraversalConfig::from_flags(false, true, Vec::new(), false);
    config.respect_plain_ignore_files = true;
    assert!(!config.walk_settings().ignore);
    config.respect_vcs_ignore = true;
    assert!(config.walk_settings().ignore);
    config.respect_plain_ignore_files = false;
    assert!(!config.walk_settings().ignore);
    assert!(config.walk_settings().git_ignore);
}

#[test]
fn first_missing_root_is_reported() {
    assert_eq!(first_missing(&vec![true, false, true, false]), Some(1));
    assert_eq!(first_missing(&vec![false]), Some(0));
    assert_eq!(first_missing(&vec![true, true]), None);
    assert_eq!(first_missing(&Vec::new()), None);
}
