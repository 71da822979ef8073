use zerobrew::migrate::{
    categorize_packages, formula_from_fields, parse_casks_from_plain_text, split_lines,
    HomebrewPackage,
};

#[test]
fn test_parse_casks_from_plain_text() {
    // Simulate brew list --cask output
    let brew_output = "visual-studio-code\nfirefox\n";

    let packages = parse_casks_from_plain_text(brew_output);

    assert_eq!(packages.len(), 2);
    assert_eq!(packages[0].name, "visual-studio-code");
    assert_eq!(packages[0].tap, "homebrew/cask");
    assert!(packages[0].is_cask);
    assert_eq!(packages[1].name, "firefox");
    assert!(packages[1].is_cask);
}

#[test]
fn test_parse_casks_handles_empty_output() {
    let brew_output = "";

    let packages = parse_casks_from_plain_text(brew_output);

    assert!(packages.is_empty());
}

#[test]
fn test_parse_casks_handles_multiple_lines() {
    let brew_output = "visual-studio-code\nfirefox\ndocker\niterm2\n";

    let packages = parse_casks_from_plain_text(brew_output);

    assert_eq!(packages.len(), 4);
    assert_eq!(
        packages.iter().map(|p| &p.name).collect::<Vec<_>>(),
        vec!["visual-studio-code", "firefox", "docker", "iterm2"]
    );
}

#[test]
fn test_parse_casks_skips_blank_lines_and_strips_cr() {
    let brew_output = "alpha\r\n\nbeta\n";
    let packages = parse_casks_from_plain_text(brew_output);
    assert_eq!(packages.len(), 2);
    assert_eq!(packages[0].name, "alpha");
    assert_eq!(packages[1].name, "beta");
}

#[test]
fn test_categorize_packages_filters_core_formulas() {
    let packages = vec![
        HomebrewPackage {
            name: "git".to_string(),
            tap: "homebrew/core".to_string(),
            is_cask: false,
        },
        HomebrewPackage {
            name: "curl".to_string(),
            tap: "homebrew/core".to_string(),
            is_cask: false,
        },
    ];

    let result = categorize_packages(&packages);

    assert_eq!(result.formulas.len(), 2);
    assert!(result.non_core_formulas.is_empty());
    assert!(result.casks.is_empty());
}

#[test]
fn test_categorize_packages_filters_non_core_formulas() {
    let packages = vec![
        HomebrewPackage {
            name: "php".to_string(),
            tap: "shivammathur/php".to_string(),
            is_cask: false,
        },
        HomebrewPackage {
            name: "mysql".to_string(),
            tap: "homebrew/mysql".to_string(),
            is_cask: false,
        },
    ];

    let result = categorize_packages(&packages);

    assert!(result.formulas.is_empty());
    assert_eq!(result.non_core_formulas.len(), 2);
    assert!(result.casks.is_empty());
}

#[test]
fn test_categorize_packages_filters_casks() {
    let packages = vec![
        HomebrewPackage {
            name: "visual-studio-code".to_string(),
            tap: "homebrew/cask".to_string(),
            is_cask: true,
        },
        HomebrewPackage {
            name: "firefox".to_string(),
            tap: "homebrew/cask".to_string(),
            is_cask: true,
        },
    ];

    let result = categorize_packages(&packages);

    assert!(result.formulas.is_empty());
    assert!(result.non_core_formulas.is_empty());
    assert_eq!(result.casks.len(), 2);
}

#[test]
fn test_categorize_packages_mixed_packages() {
    let packages = vec![
        HomebrewPackage {
            name: "git".to_string(),
            tap: "homebrew/core".to_string(),
            is_cask: false,
        },
        HomebrewPackage {
            name: "php".to_string(),
            tap: "homebrew/php".to_string(),
            is_cask: false,
        },
        HomebrewPackage {
            name: "visual-studio-code".to_string(),
            tap: "homebrew/cask".to_string(),
            is_cask: true,
        },
    ];

    let result = categorize_packages(&packages);

    assert_eq!(result.formulas.len(), 1);
    assert_eq!(result.formulas[0].name, "git");

    assert_eq!(result.non_core_formulas.len(), 1);
    assert_eq!(result.non_core_formulas[0].name, "php");

    assert_eq!(result.casks.len(), 1);
    assert_eq!(result.casks[0].name, "visual-studio-code");
}

#[test]
fn test_homebrew_package_struct() {
    let pkg = HomebrewPackage {
        name: "test-formula".to_string(),
        tap: "homebrew/core".to_string(),
        is_cask: false,
    };

    assert_eq!(pkg.name, "test-formula");
    assert_eq!(pkg.tap, "homebrew/core");
    assert!(!pkg.is_cask);

    let cask = HomebrewPackage {
        name: "test-cask".to_string(),
        tap: "homebrew/cask".to_string(),
        is_cask: true,
    };

    assert!(cask.is_cask);
}

#[test]
fn split_lines_cuts_like_the_standard_library() {
    assert_eq!(split_lines("a\r\nb\nc"), vec!["a", "b", "c"]);
    // A terminated text yields no final empty line; a lone trailing
    // carriage return without a line feed stays part of its line.
    assert_eq!(split_lines("a\nb\n"), vec!["a", "b"]);
    assert_eq!(split_lines("ab\r"), vec!["ab\r"]);
    assert_eq!(split_lines("\n"), vec![""]);
    assert!(split_lines("").is_empty());

    // The same cuts as str::lines, case by case.
    for s in ["a\r\nb\nc", "a\nb\n", "ab\r", "\n", "", "x\r\r\ny"] {
        let expected: Vec<String> = s.lines().map(|l| l.to_string()).collect();
        assert_eq!(split_lines(s), expected);
    }
}

#[test]
fn test_formula_from_fields_defaults_tap_to_core() {
    let pkg = formula_from_fields(Some("no-tap-formula".to_string()), None).unwrap();
    assert_eq!(pkg.name, "no-tap-formula");
    assert_eq!(pkg.tap, "homebrew/core");
    assert!(!pkg.is_cask);

    let pkg = formula_from_fields(Some("git".to_string()), Some("homebrew/core".to_string()))
        .unwrap();
    assert_eq!(pkg.tap, "homebrew/core");

    assert!(formula_from_fields(None, Some("homebrew/core".to_string())).is_none());
}
