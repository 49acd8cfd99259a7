use setupvault::columns::split_columns;
use setupvault::detect::apt_changes;
use setupvault::detect::brew_changes;
use setupvault::detect::cargo_changes;
use setupvault::detect::choco_changes;
use setupvault::detect::default_detector_sources;
use setupvault::detect::dotfile_changes;
use setupvault::detect::flatpak_changes;
use setupvault::detect::mac_app_changes;
use setupvault::detect::mac_defaults_changes;
use setupvault::detect::merge_scan_results;
use setupvault::detect::npm_changes;
use setupvault::detect::parse_rpm_list;
use setupvault::detect::parse_winget_list;
use setupvault::detect::pip_changes;
use setupvault::detect::scoop_changes;
use setupvault::detect::snap_changes;
use setupvault::detect::BrewDetector;
use setupvault::detect::ScannedEntry;
use setupvault::detect::SnapDetector;
use setupvault::domain::CoreError;
use setupvault::domain::DetectedChange;
use setupvault::domain::SystemInfo;

fn system() -> SystemInfo {
    SystemInfo {
        os: "linux".to_string(),
        arch: "x86_64".to_string(),
    }
}

const NOW: &str = "2024-04-04T12:00:00+00:00";

#[test]
fn column_split_treats_double_spaces_as_boundaries() {
    let cols = split_columns("Git.Git                Git.Git              2.40.0");
    assert_eq!(cols, vec!["Git.Git".to_string(), "Git.Git".to_string(), "2.40.0".to_string()]);
}

#[test]
fn column_split_keeps_single_interior_spaces() {
    let cols = split_columns("Microsoft Edge  Microsoft.Edge   120.0");
    assert_eq!(
        cols,
        vec!["Microsoft Edge".to_string(), "Microsoft.Edge".to_string(), "120.0".to_string()]
    );
}

#[test]
fn brew_parses_formulae_and_casks() {
    let changes = brew_changes("jq\nripgrep\n", "firefox\n", &system(), NOW);
    assert_eq!(changes.len(), 3);
    assert_eq!(changes[0].title, "jq");
    assert_eq!(changes[0].cmd, "brew install jq");
    assert_eq!(changes[0].source, "homebrew");
    assert_eq!(changes[2].title, "firefox");
    assert_eq!(changes[2].cmd, "brew install --cask firefox");
    assert_eq!(changes[2].detected_at, NOW);
}

#[test]
fn npm_drops_the_tree_root_and_takes_last_path_segment() {
    let out = "/usr/lib\n/usr/lib/node_modules/typescript\n/usr/lib/node_modules/eslint\n";
    let changes = npm_changes(out, &system(), NOW);
    assert_eq!(changes.len(), 2);
    assert_eq!(changes[0].title, "typescript");
    assert_eq!(changes[0].cmd, "npm install -g typescript");
    assert_eq!(changes[1].title, "eslint");
}

#[test]
fn cargo_takes_the_first_token_of_each_line() {
    let out = "ripgrep v13.0.0:\n    rg\nbat v0.24.0:\n    bat\n";
    let changes = cargo_changes(out, &system(), NOW);
    assert_eq!(changes.len(), 4);
    assert_eq!(changes[0].title, "ripgrep");
    assert_eq!(changes[1].title, "rg");
    assert_eq!(changes[0].cmd, "cargo install ripgrep");
}

#[test]
fn pip_cuts_names_at_the_version_marker() {
    let changes = pip_changes("requests==2.31.0\nflask==3.0.0\n", &system(), NOW);
    assert_eq!(changes.len(), 2);
    assert_eq!(changes[0].title, "requests");
    assert_eq!(changes[0].cmd, "pip install requests");
}

#[test]
fn apt_lists_every_package_line() {
    let changes = apt_changes("curl\nwget\n\n", &system(), NOW);
    assert_eq!(changes.len(), 2);
    assert_eq!(changes[1].cmd, "sudo apt-get install wget");
}

#[test]
fn rpm_list_skips_the_header_and_cuts_at_the_dot() {
    let out = "Last metadata check\nInstalled Packages\nbash.x86_64    5.2    @System\nzsh.x86_64    5.9    @System\n";
    let changes = parse_rpm_list(out, "dnf", &system(), NOW);
    assert_eq!(changes.len(), 2);
    assert_eq!(changes[0].title, "bash");
    assert_eq!(changes[0].cmd, "sudo dnf install bash");
    assert_eq!(changes[0].source, "dnf");
}

#[test]
fn winget_list_waits_for_the_separator_row() {
    let out = "Name        Id             Version\n\
               ----------------------------------\n\
               Git         Git.Git        2.40.0\n\
               Edge        Microsoft.Edge  120.0\n";
    let changes = parse_winget_list(out, "winget", &system(), NOW);
    assert_eq!(changes.len(), 2);
    assert_eq!(changes[0].title, "Git");
    assert_eq!(changes[0].cmd, "winget install --id Git.Git");
    assert_eq!(changes[1].cmd, "winget install --id Microsoft.Edge");
}

#[test]
fn snap_skips_its_header_row() {
    let out = "Name  Version  Rev\nfirefox  121  357\ncore  16  1234\n";
    let changes = snap_changes(out, &system(), NOW);
    assert_eq!(changes.len(), 2);
    assert_eq!(changes[0].title, "firefox");
    assert_eq!(changes[0].cmd, "sudo snap install firefox");
}

#[test]
fn chocolatey_skips_banner_and_summary() {
    let out = "Chocolatey v2.0.0\ngit 2.40.0\n7zip 23.1\n2 packages installed.\n";
    let changes = choco_changes(out, &system(), NOW);
    assert_eq!(changes.len(), 2);
    assert_eq!(changes[0].title, "git");
    assert_eq!(changes[0].cmd, "choco install git -y");
}

#[test]
fn scoop_skips_header_rows() {
    let out = "Installed apps:\nName  Version\ngit  2.40.0\n";
    let changes = scoop_changes(out, &system(), NOW);
    assert_eq!(changes.len(), 1);
    assert_eq!(changes[0].cmd, "scoop install git");
}

#[test]
fn flatpak_lists_application_ids() {
    let changes = flatpak_changes("org.gimp.GIMP\norg.inkscape.Inkscape\n", &system(), NOW);
    assert_eq!(changes.len(), 2);
    assert_eq!(changes[0].cmd, "flatpak install org.gimp.GIMP");
}

#[test]
fn mac_defaults_splits_domains_on_commas() {
    let changes = mac_defaults_changes("com.apple.dock, com.apple.finder", &system(), NOW);
    assert_eq!(changes.len(), 2);
    assert_eq!(changes[0].title, "com.apple.dock");
    assert_eq!(changes[0].cmd, "defaults read com.apple.dock");
}

#[test]
fn dotfiles_are_titled_by_their_file_name() {
    let paths = vec!["/home/u/.zshrc".to_string(), "/home/u/.gitconfig".to_string()];
    let changes = dotfile_changes(&paths, &system(), NOW);
    assert_eq!(changes.len(), 2);
    assert_eq!(changes[0].title, ".zshrc");
    assert_eq!(changes[0].cmd, "open /home/u/.zshrc");
    assert_eq!(changes[0].path.as_deref(), Some("/home/u/.zshrc"));
}

#[test]
fn mac_apps_matching_a_cask_are_left_out() {
    let apps = vec![
        ScannedEntry {
            name: "Firefox".to_string(),
            path: "/Applications/Firefox.app".to_string(),
        },
        ScannedEntry {
            name: "Xcode".to_string(),
            path: "/Applications/Xcode.app".to_string(),
        },
    ];
    let changes = mac_app_changes(&apps, "firefox\n", &system(), NOW);
    assert_eq!(changes.len(), 1);
    assert_eq!(changes[0].title, "Xcode");
    assert_eq!(changes[0].cmd, "open \"/Applications/Xcode.app\"");
}

#[test]
fn registry_lists_are_fixed_per_platform() {
    let macos = default_detector_sources("macos");
    assert_eq!(
        macos,
        vec!["homebrew", "npm", "cargo", "pip", "dotfiles", "mac_defaults", "applications"]
    );
    let other = default_detector_sources("freebsd");
    assert_eq!(other, vec!["npm", "cargo", "pip"]);
    let windows = default_detector_sources("windows");
    assert_eq!(windows[0], "winget");
    assert_eq!(windows.len(), 8);
}

#[test]
fn merge_concatenates_in_order_and_fails_on_first_error() {
    let a = brew_changes("jq\n", "", &system(), NOW);
    let b = pip_changes("requests==1.0\n", &system(), NOW);
    let merged = merge_scan_results(vec![Ok(a), Ok(b)]).expect("all detectors succeeded");
    assert_eq!(merged.len(), 2);
    assert_eq!(merged[0].title, "jq");
    assert_eq!(merged[1].title, "requests");

    let good: Vec<DetectedChange> = Vec::new();
    let failed = merge_scan_results(vec![
        Ok(good),
        Err(CoreError::Storage("brew exited with status 1".to_string())),
        Err(CoreError::Storage("later failure".to_string())),
    ]);
    match failed {
        Err(CoreError::Storage(m)) => assert_eq!(m, "brew exited with status 1"),
        other => panic!("expected the first hard error, got {other:?}"),
    }
}

#[test]
fn detector_names_are_fixed() {
    assert_eq!(BrewDetector::new().name(), "homebrew");
    assert_eq!(SnapDetector::new().name(), "snap");
}
