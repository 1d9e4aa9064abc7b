//! Filesystem locations used by Harbor Light.
//!
//! A location is a base directory followed by relative components, joined in
//! order with the platform's path rules where the files are opened.
use vstd::prelude::*;

use crate::providers::{provider_name, Provider};
use crate::text::{copy_opt_string, copy_strings};

verus! {

/// A base path followed by relative components.
#[derive(Debug)]
pub struct FsPath {
    pub base: String,
    pub parts: Vec<String>,
}

impl FsPath {
    /// The base as a character sequence.
    pub open spec fn spec_base(&self) -> Seq<char> {
        self.base@
    }

    /// The components as character sequences.
    pub open spec fn spec_parts(&self) -> Seq<Seq<char>> {
        self.parts.deep_view()
    }

    /// The base path alone.
    pub fn new(base: &str) -> (r: FsPath)
        ensures
            r.spec_base() == base@,
            r.spec_parts() == Seq::<Seq<char>>::empty(),
    {
        let parts: Vec<String> = Vec::new();
        assert(parts.deep_view() =~= Seq::<Seq<char>>::empty());
        FsPath { base: base.to_string(), parts }
    }

    /// This path with one more component.
    pub fn join(&self, part: &str) -> (r: FsPath)
        ensures
            r.spec_base() == self.spec_base(),
            r.spec_parts() == self.spec_parts().push(part@),
    {
        let mut parts = copy_strings(&self.parts);
        parts.push(part.to_string());
        assert(parts.deep_view() =~= self.spec_parts().push(part@));
        FsPath { base: self.base.clone(), parts }
    }
}

/// Filesystem locations used by Harbor Light: the home directory, and the
/// Codex home when it is set explicitly.
#[derive(Debug)]
pub struct Paths {
    pub home: String,
    pub codex_home: Option<String>,
}

/// `base` followed by the given components.
pub open spec fn located(p: FsPath, base: Seq<char>, parts: Seq<Seq<char>>) -> bool {
    p.spec_base() == base && p.spec_parts() == parts
}

impl Paths {
    /// A copy of the locations.
    pub fn copy(&self) -> (r: Paths)
        ensures
            r.home@ == self.home@,
            r.codex_home.deep_view() == self.codex_home.deep_view(),
    {
        Paths { home: self.home.clone(), codex_home: copy_opt_string(&self.codex_home) }
    }

    /// The legacy single-status file, `~/.codex-status.json`.
    pub fn status_file(&self) -> (r: FsPath)
        ensures
            located(r, self.home@, seq![".codex-status.json"@]),
    {
        let r = FsPath::new(self.home.as_str()).join(".codex-status.json");
        assert(r.spec_parts() =~= seq![".codex-status.json"@]);
        r
    }

    /// The log file, `~/.harbor-light.log`.
    pub fn log_file(&self) -> (r: FsPath)
        ensures
            located(r, self.home@, seq![".harbor-light.log"@]),
    {
        let r = FsPath::new(self.home.as_str()).join(".harbor-light.log");
        assert(r.spec_parts() =~= seq![".harbor-light.log"@]);
        r
    }

    /// The data directory, `~/.harbor-light`.
    pub fn light_dir(&self) -> (r: FsPath)
        ensures
            located(r, self.home@, seq![".harbor-light"@]),
    {
        let r = FsPath::new(self.home.as_str()).join(".harbor-light");
        assert(r.spec_parts() =~= seq![".harbor-light"@]);
        r
    }

    /// The activity store, `~/.harbor-light/activities`.
    pub fn activities_dir(&self) -> (r: FsPath)
        ensures
            located(r, self.home@, seq![".harbor-light"@, "activities"@]),
    {
        let r = self.light_dir().join("activities");
        assert(r.spec_parts() =~= seq![".harbor-light"@, "activities"@]);
        r
    }

    /// One provider's part of the activity store.
    pub fn provider_activities_dir(&self, provider: Provider) -> (r: FsPath)
        ensures
            located(r, self.home@, seq![".harbor-light"@, "activities"@, provider_name(provider)]),
    {
        let r = self.activities_dir().join(provider.as_str());
        assert(r.spec_parts() =~= seq![".harbor-light"@, "activities"@, provider_name(provider)]);
        r
    }

    /// The Codex home: the explicit one, else `~/.codex`.
    pub fn codex_dir(&self) -> (r: FsPath)
        ensures
            match self.codex_home.deep_view() {
                Some(c) => located(r, c, Seq::empty()),
                None => located(r, self.home@, seq![".codex"@]),
            },
    {
        match &self.codex_home {
            Some(c) => FsPath::new(c.as_str()),
            None => {
                let r = FsPath::new(self.home.as_str()).join(".codex");
                assert(r.spec_parts() =~= seq![".codex"@]);
                r
            },
        }
    }

    /// Where the Windows window position is saved.
    pub fn windows_position_file(&self) -> (r: FsPath)
        ensures
            located(r, self.home@, seq![".harbor-light-window-windows.json"@]),
    {
        let r = FsPath::new(self.home.as_str()).join(".harbor-light-window-windows.json");
        assert(r.spec_parts() =~= seq![".harbor-light-window-windows.json"@]);
        r
    }

    /// The Codex hook configuration, `hooks.json` in the Codex home.
    pub fn hooks_file(&self) -> (r: FsPath)
        ensures
            match self.codex_home.deep_view() {
                Some(c) => located(r, c, seq!["hooks.json"@]),
                None => located(r, self.home@, seq![".codex"@, "hooks.json"@]),
            },
    {
        let r = self.codex_dir().join("hooks.json");
        assert(r.spec_parts() =~= (match self.codex_home.deep_view() {
            Some(c) => seq!["hooks.json"@],
            None => seq![".codex"@, "hooks.json"@],
        }));
        r
    }

    /// The Cursor hook configuration, `~/.cursor/hooks.json`.
    pub fn cursor_hooks_file(&self) -> (r: FsPath)
        ensures
            located(r, self.home@, seq![".cursor/hooks.json"@]),
    {
        let r = FsPath::new(self.home.as_str()).join(".cursor/hooks.json");
        assert(r.spec_parts() =~= seq![".cursor/hooks.json"@]);
        r
    }

    /// The Codex rollout logs, `sessions` in the Codex home.
    pub fn sessions_dir(&self) -> (r: FsPath)
        ensures
            match self.codex_home.deep_view() {
                Some(c) => located(r, c, seq!["sessions"@]),
                None => located(r, self.home@, seq![".codex"@, "sessions"@]),
            },
    {
        let r = self.codex_dir().join("sessions");
        assert(r.spec_parts() =~= (match self.codex_home.deep_view() {
            Some(c) => seq!["sessions"@],
            None => seq![".codex"@, "sessions"@],
        }));
        r
    }

    /// The macOS LaunchAgents directory, `~/Library/LaunchAgents`.
    pub fn launch_agents_dir(&self) -> (r: FsPath)
        ensures
            located(r, self.home@, seq!["Library/LaunchAgents"@]),
    {
        let r = FsPath::new(self.home.as_str()).join("Library/LaunchAgents");
        assert(r.spec_parts() =~= seq!["Library/LaunchAgents"@]);
        r
    }

    /// The LaunchAgent property list of the application.
    pub fn launch_agent_plist(&self) -> (r: FsPath)
        ensures
            located(r, self.home@, seq!["Library/LaunchAgents"@, "com.harborlight.app.plist"@]),
    {
        let r = self.launch_agents_dir().join("com.harborlight.app.plist");
        assert(r.spec_parts() =~= seq!["Library/LaunchAgents"@, "com.harborlight.app.plist"@]);
        r
    }
}

} // verus!
