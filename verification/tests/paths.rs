use std::path::PathBuf;

use harbor_light::paths::{FsPath, Paths};
use harbor_light::providers::Provider;

fn to_path(p: &FsPath) -> PathBuf {
    let mut out = PathBuf::from(&p.base);
    for part in &p.parts {
        out.push(part);
    }
    out
}

#[test]
fn derives_standard_locations() {
    let paths = Paths { home: "/Users/demo".to_string(), codex_home: None };
    assert_eq!(to_path(&paths.status_file()), PathBuf::from("/Users/demo/.codex-status.json"));
    assert_eq!(to_path(&paths.hooks_file()), PathBuf::from("/Users/demo/.codex/hooks.json"));
    assert_eq!(to_path(&paths.sessions_dir()), PathBuf::from("/Users/demo/.codex/sessions"));
    assert_eq!(to_path(&paths.cursor_hooks_file()), PathBuf::from("/Users/demo/.cursor/hooks.json"));
    assert_eq!(
        to_path(&paths.provider_activities_dir(Provider::Cursor)),
        PathBuf::from("/Users/demo/.harbor-light/activities/cursor")
    );
    assert_eq!(to_path(&paths.log_file()), PathBuf::from("/Users/demo/.harbor-light.log"));
}

#[test]
fn respects_explicit_codex_home() {
    let paths = Paths {
        home: "C:/Users/demo".to_string(),
        codex_home: Some("D:/shared-codex".to_string()),
    };
    assert_eq!(to_path(&paths.hooks_file()), PathBuf::from("D:/shared-codex/hooks.json"));
    assert_eq!(to_path(&paths.sessions_dir()), PathBuf::from("D:/shared-codex/sessions"));
}

#[test]
fn derives_the_remaining_locations() {
    let paths = Paths { home: "/home/demo".to_string(), codex_home: None };
    assert_eq!(to_path(&paths.light_dir()), PathBuf::from("/home/demo/.harbor-light"));
    assert_eq!(to_path(&paths.activities_dir()), PathBuf::from("/home/demo/.harbor-light/activities"));
    assert_eq!(to_path(&paths.codex_dir()), PathBuf::from("/home/demo/.codex"));
    assert_eq!(
        to_path(&paths.windows_position_file()),
        PathBuf::from("/home/demo/.harbor-light-window-windows.json")
    );
    assert_eq!(to_path(&paths.launch_agents_dir()), PathBuf::from("/home/demo/Library/LaunchAgents"));
    assert_eq!(
        to_path(&paths.launch_agent_plist()),
        PathBuf::from("/home/demo/Library/LaunchAgents/com.harborlight.app.plist")
    );
    let explicit = Paths { home: "/home/demo".to_string(), codex_home: Some("/data/codex".to_string()) };
    assert_eq!(to_path(&explicit.codex_dir()), PathBuf::from("/data/codex"));
}
