//! Upgrading the command line and the OS image: what is done in which order,
//! and what each step is done with. The steps themselves are taken outside and
//! reported back.

use vstd::prelude::*;
use vstd::string::StringExecFns;

use crate::cli::assets::{
    cli_tarball_name, download_os_image_version, make_release_url, ImageDownload, GITHUB_REPO,
};
use crate::cli::version::is_newer;
use crate::text::{concat, contains, from_chars, str_eq, to_chars};

verus! {

use crate::cli::assets::{platform, release_tag, release_url};
use crate::cli::version::{
    is_version, law_newer_has_a_direction, law_nothing_is_newer_than_itself, newer,
};
use crate::text::{occurs_in, text_of, texts_of};

/// The step of an upgrade that is being taken.
#[derive(Debug, Clone, Copy, PartialEq, Eq, Structural)]
pub enum UpgradePhase {
    /// Finding out where this program was installed.
    Origin,
    /// Setting up the connection.
    Connect,
    /// Requesting the latest release.
    Request,
    /// Reading the answer.
    Parse,
    /// Finding out which platform this is.
    Platform,
    /// Finding the binary to replace.
    Locate,
    /// Requesting the archive of the command line.
    Fetch,
    /// Opening the archive.
    Archive,
    /// Going to the next entry of the archive.
    Entry,
    /// Reading the path of the entry.
    EntryPath,
    /// Creating the new binary.
    Create,
    /// Copying the entry to the new binary.
    Copy,
    /// Looking for the new binary.
    Probe,
    /// Making the new binary executable.
    Mode,
    /// Removing what an earlier upgrade left behind.
    Clear,
    /// Moving the current binary out of the way.
    MoveAway,
    /// Moving the new binary into its place.
    Install,
    /// Moving the former binary back.
    Rollback,
    /// Removing the former binary.
    Tidy,
    /// Downloading the OS image.
    Image,
    /// The upgrade is complete.
    Complete,
    /// There was nothing to upgrade.
    UpToDate,
    /// The upgrade failed.
    Failed,
}

/// How far an upgrade is.
pub open spec fn upgrade_stage(p: UpgradePhase) -> int {
    match p {
        UpgradePhase::Origin => 0,
        UpgradePhase::Connect => 1,
        UpgradePhase::Request => 2,
        UpgradePhase::Parse => 3,
        UpgradePhase::Platform => 4,
        UpgradePhase::Locate => 5,
        UpgradePhase::Fetch => 6,
        UpgradePhase::Archive => 7,
        UpgradePhase::Entry => 8,
        UpgradePhase::EntryPath => 8,
        UpgradePhase::Create => 9,
        UpgradePhase::Copy => 10,
        UpgradePhase::Probe => 11,
        UpgradePhase::Mode => 12,
        UpgradePhase::Clear => 13,
        UpgradePhase::MoveAway => 14,
        UpgradePhase::Install => 15,
        UpgradePhase::Rollback => 16,
        UpgradePhase::Tidy => 16,
        UpgradePhase::Image => 17,
        UpgradePhase::Complete => 18,
        UpgradePhase::UpToDate => 18,
        UpgradePhase::Failed => 18,
    }
}

/// What came of a step.
pub enum UpgradeEvent {
    /// The path of this program, if it can be found out.
    Origin(Option<String>),
    /// The tag of the latest release.
    Tag(Result<String, String>),
    /// The operating system and the architecture.
    Platform { os: String, arch: String },
    /// Whether there is another entry.
    More(Result<bool, String>),
    /// The path of an entry, if it is text.
    Named(Result<Option<String>, String>),
    /// Whether a file is there.
    Exists(bool),
    /// A step that gives nothing back, or why it failed.
    Done(Result<(), String>),
}

impl UpgradeEvent {
    /// The step failed.
    pub open spec fn failed(self) -> bool {
        match self {
            UpgradeEvent::Tag(r) => r is Err,
            UpgradeEvent::More(r) => r is Err,
            UpgradeEvent::Named(r) => r is Err,
            UpgradeEvent::Done(r) => r is Err,
            _ => false,
        }
    }

    /// Why it failed.
    pub open spec fn cause(self) -> Seq<char> {
        match self {
            UpgradeEvent::Tag(Err(e)) => e@,
            UpgradeEvent::More(Err(e)) => e@,
            UpgradeEvent::Named(Err(e)) => e@,
            UpgradeEvent::Done(Err(e)) => e@,
            _ => Seq::empty(),
        }
    }
}

/// An event of the sort that a step ends in.
pub open spec fn upgrade_answers(p: UpgradePhase, e: UpgradeEvent) -> bool {
    match p {
        UpgradePhase::Origin => e is Origin,
        UpgradePhase::Parse => e is Tag,
        UpgradePhase::Platform => e is Platform,
        UpgradePhase::Entry => e is More,
        UpgradePhase::EntryPath => e is Named,
        UpgradePhase::Probe => e is Exists,
        UpgradePhase::Complete | UpgradePhase::UpToDate | UpgradePhase::Failed => false,
        _ => e is Done,
    }
}

/// A binary by the place it has.
#[derive(Debug, Clone, Copy, PartialEq, Eq, Structural)]
pub enum Binary {
    /// The one that is run.
    Current,
    /// The one that was downloaded: the current path with the extension `new`.
    New,
    /// The one that was moved away: the current path with the extension `old`.
    Old,
}

/// A step to take.
pub enum UpgradeAction {
    /// Find out where this program was installed.
    FindOrigin,
    /// Set up the connection.
    Connect,
    /// Request the latest release.
    Request { url: String, accept: String, user_agent: String },
    /// Read the tag from the answer.
    Parse,
    /// Find out which platform this is.
    FindPlatform,
    /// Find the path of the current binary.
    Locate,
    /// Request the archive.
    Fetch { url: String },
    /// Open the archive.
    OpenArchive,
    /// Go to the next entry.
    NextEntry,
    /// Read the path of the entry.
    ReadPath,
    /// Create a binary.
    Create { binary: Binary },
    /// Copy the entry to the binary that was created.
    Copy,
    /// See whether a binary is there.
    Probe { binary: Binary },
    /// Set the permissions of a binary.
    SetMode { binary: Binary, mode: u32 },
    /// Remove a binary. It is no failure if it is not there.
    Remove { binary: Binary },
    /// Move a binary.
    Rename { from: Binary, to: Binary },
    /// Take the steps of a download.
    DownloadImage { download: ImageDownload },
    /// Nothing: the upgrade is at its end.
    End,
}

/// Where the binaries are.
#[derive(Debug, Clone, Copy, PartialEq, Eq, Structural)]
pub enum Swap {
    /// The binary that runs is in its place.
    Untouched,
    /// It was moved out of the way.
    MovedAway,
    /// The new binary is in its place.
    Installed,
    /// It was moved out of the way and back.
    RolledBack,
    /// It was moved out of the way and could not be moved back.
    Stranded,
}

/// A binary that can be run is in this place.
pub open spec fn has_binary(swap: Swap, b: Binary) -> bool {
    match b {
        Binary::Current => swap is Untouched || swap is Installed || swap is RolledBack,
        Binary::Old => swap is MovedAway || swap is Stranded,
        Binary::New => false,
    }
}

/// A tag without the `v` at its start.
pub open spec fn version_of(tag: Seq<char>) -> Seq<char> {
    if tag.len() > 0 && tag[0] == 'v' {
        tag.drop_first()
    } else {
        tag
    }
}

/// Computes `version_of`.
fn strip_v(tag: &str) -> (r: String)
    ensures
        r@ == version_of(tag@),
{
    let v = to_chars(tag);
    if v.len() > 0 && v[0] == 'v' {
        let r = from_chars(&v, 1, v.len());
        assert(r@ =~= tag@.drop_first());
        r
    } else {
        tag.to_string()
    }
}

/// What a user is told who has the program from Homebrew.
pub const HOMEBREW: &'static str = "This copy was installed via Homebrew. Please run `brew upgrade shuru` instead";

/// An upgrade under way.
pub struct Upgrade {
    pub phase: UpgradePhase,
    /// The directory of the OS image.
    pub data_dir: String,
    pub current_version: String,
    /// The latest version, once it is known.
    pub latest: String,
    /// The archive of the command line, once it is known.
    pub tarball: String,
    /// Where the binaries are.
    pub swap: Swap,
    /// What is said of why the upgrade failed.
    pub error: Option<String>,
    /// What was reported of the step that failed it.
    pub cause: Option<String>,
}

impl Upgrade {
    /// The step after this one, given what came of this one.
    pub open spec fn next_phase(self, e: UpgradeEvent) -> UpgradePhase {
        match self.phase {
            UpgradePhase::Clear => UpgradePhase::MoveAway,
            UpgradePhase::Install => if e.failed() {
                UpgradePhase::Rollback
            } else {
                UpgradePhase::Tidy
            },
            UpgradePhase::Rollback => UpgradePhase::Failed,
            UpgradePhase::Tidy => UpgradePhase::Image,
            _ => if e.failed() {
                UpgradePhase::Failed
            } else {
                match self.phase {
                    UpgradePhase::Origin => match e {
                        UpgradeEvent::Origin(Some(path)) if occurs_in("/Cellar/"@, path@) => {
                            UpgradePhase::Failed
                        },
                        _ => UpgradePhase::Connect,
                    },
                    UpgradePhase::Connect => UpgradePhase::Request,
                    UpgradePhase::Request => UpgradePhase::Parse,
                    UpgradePhase::Parse => match e {
                        UpgradeEvent::Tag(Ok(tag)) if !newer(
                            version_of(tag@),
                            self.current_version@,
                        ) => UpgradePhase::UpToDate,
                        _ => UpgradePhase::Platform,
                    },
                    UpgradePhase::Platform => match e {
                        UpgradeEvent::Platform { os, arch } if platform(os@, arch@) is Some => {
                            UpgradePhase::Locate
                        },
                        _ => UpgradePhase::Failed,
                    },
                    UpgradePhase::Locate => UpgradePhase::Fetch,
                    UpgradePhase::Fetch => UpgradePhase::Archive,
                    UpgradePhase::Archive => UpgradePhase::Entry,
                    UpgradePhase::Entry => if e == UpgradeEvent::More(Ok(true)) {
                        UpgradePhase::EntryPath
                    } else {
                        UpgradePhase::Probe
                    },
                    UpgradePhase::EntryPath => match e {
                        UpgradeEvent::Named(Ok(Some(path))) if path@ == "shuru"@ => {
                            UpgradePhase::Create
                        },
                        _ => UpgradePhase::Entry,
                    },
                    UpgradePhase::Create => UpgradePhase::Copy,
                    UpgradePhase::Copy => UpgradePhase::Probe,
                    UpgradePhase::Probe => if e == UpgradeEvent::Exists(true) {
                        UpgradePhase::Mode
                    } else {
                        UpgradePhase::Failed
                    },
                    UpgradePhase::Mode => UpgradePhase::Clear,
                    UpgradePhase::MoveAway => UpgradePhase::Install,
                    _ => UpgradePhase::Complete,
                }
            },
        }
    }

    /// Where the binaries are after the step.
    pub open spec fn next_swap(self, e: UpgradeEvent) -> Swap {
        match self.phase {
            UpgradePhase::MoveAway if !e.failed() => Swap::MovedAway,
            UpgradePhase::Install if !e.failed() => Swap::Installed,
            UpgradePhase::Rollback => if e.failed() {
                Swap::Stranded
            } else {
                Swap::RolledBack
            },
            _ => self.swap,
        }
    }

    /// What is said where this step fails an upgrade. The last two steps fail it
    /// for what went wrong before them.
    pub open spec fn complaint(self, e: UpgradeEvent) -> Seq<char> {
        match self.phase {
            UpgradePhase::Origin => HOMEBREW@,
            UpgradePhase::Request => "failed to check for updates"@,
            UpgradePhase::Parse => "failed to parse release info"@,
            UpgradePhase::Platform => match e {
                UpgradeEvent::Platform { os, arch } => "automatic upgrade is not supported on "@
                    + os@ + "-"@ + arch@,
                _ => Seq::empty(),
            },
            UpgradePhase::Locate => "failed to determine current binary path"@,
            UpgradePhase::Fetch => "failed to download CLI v"@ + self.latest@,
            UpgradePhase::Archive => "failed to read CLI archive"@,
            UpgradePhase::Entry => "failed to read archive entry"@,
            UpgradePhase::Create => "failed to create temp binary"@,
            UpgradePhase::Probe => "'shuru' binary not found in CLI archive"@,
            UpgradePhase::MoveAway => "failed to move current binary (try with sudo?)"@,
            UpgradePhase::Install => "failed to install new binary"@,
            _ => e.cause(),
        }
    }

    /// What is known at each step of an upgrade.
    pub open spec fn sound(self) -> bool {
        &&& upgrade_stage(self.phase) <= 14 ==> self.swap is Untouched
        &&& self.phase is Install || self.phase is Rollback ==> self.swap is MovedAway
        &&& self.phase is Tidy || self.phase is Image || self.phase is Complete
            ==> self.swap is Installed
        &&& self.phase is UpToDate ==> self.swap is Untouched
        &&& self.phase is Failed ==> !(self.swap is MovedAway)
        &&& self.error is Some <==> self.phase is Rollback || self.phase is Failed
        &&& self.cause is Some ==> self.error is Some
    }

    /// Ends the upgrade.
    fn fail(&mut self, message: String, cause: Option<String>)
        ensures
            *final(self) == (Upgrade {
                phase: UpgradePhase::Failed,
                error: Some(message),
                cause,
                ..*old(self)
            }),
    {
        self.error = Some(message);
        self.cause = cause;
        self.phase = UpgradePhase::Failed;
    }

    /// Takes up what came of the current step and goes on to the next one.
    pub fn step(&mut self, event: UpgradeEvent)
        requires
            old(self).sound(),
            upgrade_answers(old(self).phase, event),
        ensures
            final(self).sound(),
            final(self).phase == old(self).next_phase(event),
            final(self).swap == old(self).next_swap(event),
            final(self).data_dir == old(self).data_dir,
            final(self).current_version == old(self).current_version,
            final(self).latest@ == (match event {
                UpgradeEvent::Tag(Ok(tag)) => version_of(tag@),
                _ => old(self).latest@,
            }),
            final(self).tarball@ == (match event {
                UpgradeEvent::Platform { os, arch } if platform(os@, arch@) is Some => "shuru-v"@
                    + old(self).latest@ + "-"@ + platform(os@, arch@)->Some_0 + ".tar.gz"@,
                _ => old(self).tarball@,
            }),
            text_of(final(self).error) == (if old(self).error is Some {
                text_of(old(self).error)
            } else if final(self).phase is Failed || final(self).phase is Rollback {
                Some(old(self).complaint(event))
            } else {
                None
            }),
            text_of(final(self).cause) == (if old(self).error is Some {
                text_of(old(self).cause)
            } else if event.failed() && (final(self).phase is Failed
                || final(self).phase is Rollback) {
                Some(event.cause())
            } else {
                None
            }),
    {
        match event {
            UpgradeEvent::Origin(path) => {
                let brewed = match &path {
                    Some(path) => contains(path.as_str(), "/Cellar/"),
                    None => false,
                };
                if brewed {
                    self.fail(HOMEBREW.to_string(), None);
                } else {
                    self.phase = UpgradePhase::Connect;
                }
            },
            UpgradeEvent::Tag(Err(cause)) => {
                self.fail("failed to parse release info".to_string(), Some(cause));
            },
            UpgradeEvent::Tag(Ok(tag)) => {
                self.latest = strip_v(tag.as_str());
                self.phase = if is_newer(self.latest.as_str(), self.current_version.as_str()) {
                    UpgradePhase::Platform
                } else {
                    UpgradePhase::UpToDate
                };
            },
            UpgradeEvent::Platform { os, arch } => {
                match cli_tarball_name(self.latest.as_str(), os.as_str(), arch.as_str()) {
                    Ok(tarball) => {
                        self.tarball = tarball;
                        self.phase = UpgradePhase::Locate;
                    },
                    Err(message) => {
                        self.fail(message, None);
                    },
                }
            },
            UpgradeEvent::More(Err(cause)) => {
                self.fail("failed to read archive entry".to_string(), Some(cause));
            },
            UpgradeEvent::More(Ok(more)) => {
                self.phase = if more {
                    UpgradePhase::EntryPath
                } else {
                    UpgradePhase::Probe
                };
            },
            UpgradeEvent::Named(Err(cause)) => {
                self.fail(cause.clone(), Some(cause));
            },
            UpgradeEvent::Named(Ok(path)) => {
                let found = match &path {
                    Some(path) => str_eq(path.as_str(), "shuru"),
                    None => false,
                };
                self.phase = if found {
                    UpgradePhase::Create
                } else {
                    UpgradePhase::Entry
                };
            },
            UpgradeEvent::Exists(there) => {
                if there {
                    self.phase = UpgradePhase::Mode;
                } else {
                    self.fail("'shuru' binary not found in CLI archive".to_string(), None);
                }
            },
            UpgradeEvent::Done(answer) => {
                self.done(answer);
            },
        }
    }

    /// Goes on after a step that gives nothing back.
    fn done(&mut self, answer: Result<(), String>)
        requires
            old(self).sound(),
            upgrade_answers(old(self).phase, UpgradeEvent::Done(answer)),
        ensures
            final(self).sound(),
            final(self).phase == old(self).next_phase(UpgradeEvent::Done(answer)),
            final(self).swap == old(self).next_swap(UpgradeEvent::Done(answer)),
            final(self).data_dir == old(self).data_dir,
            final(self).current_version == old(self).current_version,
            final(self).latest == old(self).latest,
            final(self).tarball == old(self).tarball,
            text_of(final(self).error) == (if old(self).error is Some {
                text_of(old(self).error)
            } else if final(self).phase is Failed || final(self).phase is Rollback {
                Some(old(self).complaint(UpgradeEvent::Done(answer)))
            } else {
                None
            }),
            text_of(final(self).cause) == (if old(self).error is Some {
                text_of(old(self).cause)
            } else if UpgradeEvent::Done(answer).failed() && (final(self).phase is Failed
                || final(self).phase is Rollback) {
                Some(UpgradeEvent::Done(answer).cause())
            } else {
                None
            }),
    {
        match self.phase {
            UpgradePhase::Clear => {
                self.phase = UpgradePhase::MoveAway;
                return;
            },
            UpgradePhase::Rollback => {
                self.swap = if answer.is_ok() {
                    Swap::RolledBack
                } else {
                    Swap::Stranded
                };
                self.phase = UpgradePhase::Failed;
                return;
            },
            UpgradePhase::Tidy => {
                self.phase = UpgradePhase::Image;
                return;
            },
            _ => {},
        }
        match answer {
            Err(cause) => {
                let message = match self.phase {
                    UpgradePhase::Request => "failed to check for updates".to_string(),
                    UpgradePhase::Locate => "failed to determine current binary path".to_string(),
                    UpgradePhase::Fetch => concat(
                        "failed to download CLI v",
                        self.latest.as_str(),
                    ),
                    UpgradePhase::Archive => "failed to read CLI archive".to_string(),
                    UpgradePhase::Create => "failed to create temp binary".to_string(),
                    UpgradePhase::MoveAway => {
                        "failed to move current binary (try with sudo?)".to_string()
                    },
                    UpgradePhase::Install => "failed to install new binary".to_string(),
                    _ => cause.clone(),
                };
                if self.phase == UpgradePhase::Install {
                    self.error = Some(message);
                    self.cause = Some(cause);
                    self.phase = UpgradePhase::Rollback;
                } else {
                    self.fail(message, Some(cause));
                }
            },
            Ok(_) => {
                match self.phase {
                    UpgradePhase::MoveAway => {
                        self.swap = Swap::MovedAway;
                    },
                    UpgradePhase::Install => {
                        self.swap = Swap::Installed;
                    },
                    _ => {},
                }
                self.phase = match self.phase {
                    UpgradePhase::Connect => UpgradePhase::Request,
                    UpgradePhase::Request => UpgradePhase::Parse,
                    UpgradePhase::Locate => UpgradePhase::Fetch,
                    UpgradePhase::Fetch => UpgradePhase::Archive,
                    UpgradePhase::Archive => UpgradePhase::Entry,
                    UpgradePhase::Create => UpgradePhase::Copy,
                    UpgradePhase::Copy => UpgradePhase::Probe,
                    UpgradePhase::Mode => UpgradePhase::Clear,
                    UpgradePhase::MoveAway => UpgradePhase::Install,
                    UpgradePhase::Install => UpgradePhase::Tidy,
                    _ => UpgradePhase::Complete,
                };
            },
        }
    }

    /// The address of the archive of the command line.
    fn cli_url(&self) -> (r: String)
        ensures
            r@ == release_url(release_tag(self.latest@), self.tarball@),
    {
        let tag = concat("v", self.latest.as_str());
        make_release_url(tag.as_str(), self.tarball.as_str())
    }

    /// The step to take now.
    pub fn action(&self) -> (r: UpgradeAction)
        ensures
            match self.phase {
                UpgradePhase::Origin => r is FindOrigin,
                UpgradePhase::Connect => r is Connect,
                UpgradePhase::Request => r matches UpgradeAction::Request {
                    url,
                    accept,
                    user_agent,
                } && url@ == "https://api.github.com/repos/"@ + GITHUB_REPO@ + "/releases/latest"@
                    && accept@ == "application/vnd.github+json"@ && user_agent@ == "shuru"@,
                UpgradePhase::Parse => r is Parse,
                UpgradePhase::Platform => r is FindPlatform,
                UpgradePhase::Locate => r is Locate,
                UpgradePhase::Fetch => r matches UpgradeAction::Fetch { url } && url@
                    == release_url(release_tag(self.latest@), self.tarball@),
                UpgradePhase::Archive => r is OpenArchive,
                UpgradePhase::Entry => r is NextEntry,
                UpgradePhase::EntryPath => r is ReadPath,
                UpgradePhase::Create => r == (UpgradeAction::Create { binary: Binary::New }),
                UpgradePhase::Copy => r is Copy,
                UpgradePhase::Probe => r == (UpgradeAction::Probe { binary: Binary::New }),
                UpgradePhase::Mode => r == (UpgradeAction::SetMode {
                    binary: Binary::New,
                    mode: 0o755,
                }),
                UpgradePhase::Clear => r == (UpgradeAction::Remove { binary: Binary::Old }),
                UpgradePhase::MoveAway => r == (UpgradeAction::Rename {
                    from: Binary::Current,
                    to: Binary::Old,
                }),
                UpgradePhase::Install => r == (UpgradeAction::Rename {
                    from: Binary::New,
                    to: Binary::Current,
                }),
                UpgradePhase::Rollback => r == (UpgradeAction::Rename {
                    from: Binary::Old,
                    to: Binary::Current,
                }),
                UpgradePhase::Tidy => r == (UpgradeAction::Remove { binary: Binary::Old }),
                UpgradePhase::Image => r matches UpgradeAction::DownloadImage { download }
                    && download.phase is Directory && download.data_dir@ == self.data_dir@
                    && download.version@ == self.latest@ && download.error is None
                    && download.cause is None,
                UpgradePhase::Complete | UpgradePhase::UpToDate | UpgradePhase::Failed => r is End,
            },
    {
        match self.phase {
            UpgradePhase::Origin => UpgradeAction::FindOrigin,
            UpgradePhase::Connect => UpgradeAction::Connect,
            UpgradePhase::Request => {
                let mut url = concat("https://api.github.com/repos/", GITHUB_REPO);
                url.append("/releases/latest");
                UpgradeAction::Request {
                    url,
                    accept: "application/vnd.github+json".to_string(),
                    user_agent: "shuru".to_string(),
                }
            },
            UpgradePhase::Parse => UpgradeAction::Parse,
            UpgradePhase::Platform => UpgradeAction::FindPlatform,
            UpgradePhase::Locate => UpgradeAction::Locate,
            UpgradePhase::Fetch => UpgradeAction::Fetch { url: self.cli_url() },
            UpgradePhase::Archive => UpgradeAction::OpenArchive,
            UpgradePhase::Entry => UpgradeAction::NextEntry,
            UpgradePhase::EntryPath => UpgradeAction::ReadPath,
            UpgradePhase::Create => UpgradeAction::Create { binary: Binary::New },
            UpgradePhase::Copy => UpgradeAction::Copy,
            UpgradePhase::Probe => UpgradeAction::Probe { binary: Binary::New },
            UpgradePhase::Mode => UpgradeAction::SetMode { binary: Binary::New, mode: 0o755 },
            UpgradePhase::Clear => UpgradeAction::Remove { binary: Binary::Old },
            UpgradePhase::MoveAway => UpgradeAction::Rename {
                from: Binary::Current,
                to: Binary::Old,
            },
            UpgradePhase::Install => UpgradeAction::Rename {
                from: Binary::New,
                to: Binary::Current,
            },
            UpgradePhase::Rollback => UpgradeAction::Rename {
                from: Binary::Old,
                to: Binary::Current,
            },
            UpgradePhase::Tidy => UpgradeAction::Remove { binary: Binary::Old },
            UpgradePhase::Image => UpgradeAction::DownloadImage {
                download: download_os_image_version(self.data_dir.as_str(), self.latest.as_str()),
            },
            _ => UpgradeAction::End,
        }
    }

    /// The lines that tell a user about the current step, before it is taken.
    pub open spec fn notice_texts(self) -> Seq<Seq<char>> {
        match self.phase {
            UpgradePhase::Connect => seq!["shuru: checking for updates..."@],
            UpgradePhase::UpToDate => seq![
                "shuru: already on latest version ("@ + self.current_version@ + ")"@,
            ],
            UpgradePhase::Platform => seq![
                "shuru: upgrading "@ + self.current_version@ + " -> "@ + self.latest@,
            ],
            UpgradePhase::Fetch => seq![
                "shuru: downloading CLI ("@ + self.latest@ + ")..."@,
                "shuru: "@ + release_url(release_tag(self.latest@), self.tarball@),
            ],
            UpgradePhase::Probe => seq![""@],
            UpgradePhase::Image => seq!["shuru: CLI updated to "@ + self.latest@],
            UpgradePhase::Complete => seq!["shuru: upgrade complete ("@ + self.latest@ + ")"@],
            _ => Seq::empty(),
        }
    }

    /// Computes `notice_texts`.
    pub fn notices(&self) -> (r: Vec<String>)
        ensures
            texts_of(r@) == self.notice_texts(),
    {
        let mut r: Vec<String> = Vec::new();
        match self.phase {
            UpgradePhase::Connect => {
                r.push("shuru: checking for updates...".to_string());
            },
            UpgradePhase::UpToDate => {
                let mut line = concat(
                    "shuru: already on latest version (",
                    self.current_version.as_str(),
                );
                line.append(")");
                r.push(line);
            },
            UpgradePhase::Platform => {
                let mut line = concat("shuru: upgrading ", self.current_version.as_str());
                line.append(" -> ");
                line.append(self.latest.as_str());
                r.push(line);
            },
            UpgradePhase::Fetch => {
                let mut line = concat("shuru: downloading CLI (", self.latest.as_str());
                line.append(")...");
                r.push(line);
                let url = self.cli_url();
                r.push(concat("shuru: ", url.as_str()));
            },
            UpgradePhase::Probe => {
                r.push("".to_string());
            },
            UpgradePhase::Image => {
                r.push(concat("shuru: CLI updated to ", self.latest.as_str()));
            },
            UpgradePhase::Complete => {
                let mut line = concat("shuru: upgrade complete (", self.latest.as_str());
                line.append(")");
                r.push(line);
            },
            _ => {},
        }
        assert(texts_of(r@) =~= self.notice_texts());
        r
    }

    /// What the upgrade came to, once it is at its end.
    pub fn result(&self) -> (r: Result<(), String>)
        ensures
            r is Err <==> self.error is Some,
            r matches Err(e) ==> Some(e@) == text_of(self.error),
    {
        match &self.error {
            Some(e) => Err(e.clone()),
            None => Ok(()),
        }
    }
}

/// Upgrades from the current version, with the OS image in `data_dir`. No step
/// is taken yet.
pub fn upgrade(data_dir: &str, current_version: &str) -> (r: Upgrade)
    ensures
        r.sound(),
        r.phase is Origin,
        r.data_dir@ == data_dir@,
        r.current_version@ == current_version@,
        r.swap is Untouched,
        r.error is None,
        r.cause is None,
{
    Upgrade {
        phase: UpgradePhase::Origin,
        data_dir: data_dir.to_string(),
        current_version: current_version.to_string(),
        latest: String::new(),
        tarball: String::new(),
        swap: Swap::Untouched,
        error: None,
        cause: None,
    }
}

/// An upgrade goes forward: every step goes to a later stage, but for going
/// through the entries of the archive.
pub proof fn law_upgrade_advances(u: Upgrade, e: UpgradeEvent)
    requires
        upgrade_answers(u.phase, e),
    ensures
        upgrade_stage(u.phase) < upgrade_stage(u.next_phase(e)) <= 18 || u.phase is Entry
            && u.next_phase(e) is EntryPath || u.phase is EntryPath && u.next_phase(e) is Entry,
{
}

/// There is always a binary to run: at every step one is in its place, or else
/// the former one is where it was moved to. A binary is removed only while
/// another one is in its place.
pub proof fn law_a_binary_is_always_there(u: Upgrade)
    requires
        u.sound(),
    ensures
        has_binary(u.swap, Binary::Current) || has_binary(u.swap, Binary::Old),
        u.phase is Clear || u.phase is Tidy ==> has_binary(u.swap, Binary::Current),
{
}

/// A failed upgrade leaves a binary in its place, unless moving the former one
/// back failed too.
pub proof fn law_failed_upgrade_leaves_a_binary(u: Upgrade)
    requires
        u.sound(),
        u.phase is Failed,
        !(u.swap is Stranded),
    ensures
        has_binary(u.swap, Binary::Current),
{
}

/// Only a newer release is installed: at any other, an upgrade ends before
/// anything is downloaded or moved.
pub proof fn law_only_newer_releases_are_installed(u: Upgrade, tag: String)
    requires
        u.sound(),
        u.phase is Parse,
        !newer(version_of(tag@), u.current_version@),
    ensures
        u.next_phase(UpgradeEvent::Tag(Ok(tag))) is UpToDate,
        u.next_swap(UpgradeEvent::Tag(Ok(tag))) is Untouched,
{
}

/// An older release is not installed, be it a pre-release or not: the upgrade
/// ends before anything is downloaded or moved.
pub proof fn law_older_releases_are_not_installed(u: Upgrade, tag: String)
    requires
        u.sound(),
        u.phase is Parse,
        is_version(version_of(tag@)),
        is_version(u.current_version@),
        newer(u.current_version@, version_of(tag@)),
    ensures
        u.next_phase(UpgradeEvent::Tag(Ok(tag))) is UpToDate,
        u.next_swap(UpgradeEvent::Tag(Ok(tag))) is Untouched,
{
    law_newer_has_a_direction(u.current_version@, version_of(tag@));
}

/// The current version is up to date.
pub proof fn law_same_version_is_up_to_date(u: Upgrade, tag: String)
    requires
        u.phase is Parse,
        version_of(tag@) == u.current_version@,
    ensures
        u.next_phase(UpgradeEvent::Tag(Ok(tag))) is UpToDate,
{
    law_nothing_is_newer_than_itself(u.current_version@);
}

/// A release is installed exactly where it is newer, be its tag marked with a `v` or
/// not: the upgrade goes on where `is_newer` says so of the version, and is at its
/// end otherwise.
pub proof fn law_newer_releases_are_installed(
    u: &mut Upgrade,
    tag: String,
    version: &str,
    current: &str,
    r: bool,
)
    requires
        old(u).phase is Parse,
        tag@ == seq!['v'] + version@ || tag@ == version@ && !(tag@.len() > 0 && tag@[0] == 'v'),
        current@ == old(u).current_version@,
        call_ensures(is_newer, (version, current), r),
        call_ensures(Upgrade::step, (u, UpgradeEvent::Tag(Ok(tag))), ()),
    ensures
        final(u).phase is Platform <==> r,
        final(u).phase is UpToDate <==> !r,
        final(u).latest@ == version@,
        final(u).swap == old(u).swap,
{
    if tag@ == seq!['v'] + version@ {
        assert(tag@.drop_first() =~= version@);
    }
}

/// What leads to each step of an upgrade: the step that was taken before it, and what
/// came of that.
pub proof fn law_what_leads_to_an_upgrade_step(
    u: &mut Upgrade,
    e: UpgradeEvent,
    a: Seq<char>,
    b: Seq<char>,
)
    requires
        upgrade_answers(old(u).phase, e),
        call_ensures(Upgrade::step, (u, e), ()),
    ensures
        ({
            let was = old(u).phase;
            let went_well = e matches UpgradeEvent::Done(Ok(_));
            match final(u).phase {
                UpgradePhase::Origin => false,
                UpgradePhase::Connect => was is Origin && (e matches UpgradeEvent::Origin(Some(path))
                    ==> path@ != a + "/Cellar/"@ + b),
                UpgradePhase::Request => was is Connect && went_well,
                UpgradePhase::Parse => was is Request && went_well,
                UpgradePhase::Platform | UpgradePhase::UpToDate => was is Parse && (e matches
                    UpgradeEvent::Tag(Ok(_))),
                UpgradePhase::Locate => was is Platform && (e matches UpgradeEvent::Platform {
                    os,
                    arch,
                } && arch@ == "aarch64"@ && (os@ == "macos"@ || os@ == "linux"@)),
                UpgradePhase::Fetch => was is Locate && went_well,
                UpgradePhase::Archive => was is Fetch && went_well,
                UpgradePhase::Entry => {
                    ||| was is Archive && went_well
                    ||| was is EntryPath && (e matches UpgradeEvent::Named(Ok(path)) && (path
                        matches Some(p) ==> p@ != "shuru"@))
                },
                UpgradePhase::EntryPath => was is Entry && (e matches UpgradeEvent::More(Ok(more))
                    && more),
                UpgradePhase::Create => was is EntryPath && (e matches UpgradeEvent::Named(
                    Ok(Some(path)),
                ) && path@ == "shuru"@),
                UpgradePhase::Copy => was is Create && went_well,
                UpgradePhase::Probe => {
                    ||| was is Copy && went_well
                    ||| was is Entry && (e matches UpgradeEvent::More(Ok(more)) && !more)
                },
                UpgradePhase::Mode => was is Probe && e == UpgradeEvent::Exists(true),
                UpgradePhase::Clear => was is Mode && went_well,
                UpgradePhase::MoveAway => was is Clear,
                UpgradePhase::Install => was is MoveAway && went_well,
                UpgradePhase::Rollback => was is Install && !went_well,
                UpgradePhase::Tidy => was is Install && went_well,
                UpgradePhase::Image => was is Tidy,
                UpgradePhase::Complete => was is Image && went_well,
                UpgradePhase::Failed => {
                    ||| was is Rollback
                    ||| was is Origin && exists|x: Seq<char>, y: Seq<char>|
                        e->Origin_0->Some_0@ == #[trigger] (x + "/Cellar/"@ + y)
                    ||| was is Platform && !(e->Platform_arch@ == "aarch64"@ && (
                    e->Platform_os@ == "macos"@ || e->Platform_os@ == "linux"@))
                    ||| was is Probe && e == UpgradeEvent::Exists(false)
                    ||| e matches UpgradeEvent::Tag(Err(_))
                    ||| e matches UpgradeEvent::More(Err(_))
                    ||| e matches UpgradeEvent::Named(Err(_))
                    ||| (e matches UpgradeEvent::Done(Err(_))) && !(was is Clear || was is Tidy
                        || was is Install)
                },
            }
        }),
        final(u).data_dir == old(u).data_dir,
        final(u).current_version == old(u).current_version,
        final(u).phase is Locate ==> final(u).tarball@ == "shuru-v"@ + old(u).latest@ + "-"@ + (
        if e->Platform_os@ == "macos"@ {
            "darwin-aarch64"@
        } else {
            "linux-aarch64"@
        }) + ".tar.gz"@,
        !(e is Platform) ==> final(u).tarball@ == old(u).tarball@,
        !(e is Tag) ==> final(u).latest@ == old(u).latest@,
{
    match e {
        UpgradeEvent::Origin(Some(path)) => {
            let part = "/Cellar/"@;
            if path@ == a + part + b {
                let i = a.len() as int;
                assert(path@.subrange(i, i + part.len()) =~= part);
            }
            if occurs_in(part, path@) {
                let i = choose|i: int|
                    0 <= i <= path@.len() - part.len() && #[trigger] path@.subrange(
                        i,
                        i + part.len(),
                    ) == part;
                let (x, y) = (path@.take(i), path@.skip(i + part.len()));
                assert(path@ =~= x + part + y);
            }
        },
        _ => {},
    }
}

/// The places of the binaries follow the moves: where a move went well, there is a
/// binary where it went to and none where it came from, and otherwise they are where
/// they were.
pub proof fn law_binaries_follow_the_moves(u: &mut Upgrade, e: UpgradeEvent, a: UpgradeAction)
    requires
        old(u).sound(),
        upgrade_answers(old(u).phase, e),
        call_ensures(Upgrade::action, (old(u),), a),
        call_ensures(Upgrade::step, (u, e), ()),
    ensures
        match a {
            UpgradeAction::Rename { from, to } => if e matches UpgradeEvent::Done(Ok(_)) {
                &&& has_binary(final(u).swap, to)
                &&& from != Binary::New && to != Binary::New ==> !has_binary(final(u).swap, from)
                &&& from == Binary::Current <==> final(u).swap is MovedAway
                &&& from == Binary::New <==> final(u).swap is Installed
                &&& from == Binary::Old <==> final(u).swap is RolledBack
            } else {
                forall|b: Binary| #[trigger]
                    has_binary(final(u).swap, b) == has_binary(old(u).swap, b)
            },
            _ => final(u).swap == old(u).swap,
        },
{
}

/// What an upgrade does, and with what. The archive is that of the latest release and
/// of this platform; what comes out of it is made executable and moved to where the
/// current binary was, which is moved out of the way and back where that fails; and
/// then the image of the same release is downloaded.
pub proof fn law_what_an_upgrade_does(u: &Upgrade, a: UpgradeAction)
    requires
        call_ensures(Upgrade::action, (u,), a),
    ensures
        match a {
            UpgradeAction::FindOrigin => u.phase is Origin,
            UpgradeAction::Connect => u.phase is Connect,
            UpgradeAction::Request { url, accept, user_agent } => u.phase is Request && url@
                == "https://api.github.com/repos/"@ + "superhq-ai/shuru"@ + "/releases/latest"@
                && accept@ == "application/vnd.github+json"@ && user_agent@ == "shuru"@,
            UpgradeAction::Parse => u.phase is Parse,
            UpgradeAction::FindPlatform => u.phase is Platform,
            UpgradeAction::Locate => u.phase is Locate,
            UpgradeAction::Fetch { url } => u.phase is Fetch && url@ == "https://github.com/"@
                + "superhq-ai/shuru"@ + "/releases/download/"@ + ("v"@ + u.latest@) + "/"@
                + u.tarball@,
            UpgradeAction::OpenArchive => u.phase is Archive,
            UpgradeAction::NextEntry => u.phase is Entry,
            UpgradeAction::ReadPath => u.phase is EntryPath,
            UpgradeAction::Create { binary } => u.phase is Create && binary == Binary::New,
            UpgradeAction::Copy => u.phase is Copy,
            UpgradeAction::Probe { binary } => u.phase is Probe && binary == Binary::New,
            UpgradeAction::SetMode { binary, mode } => u.phase is Mode && binary == Binary::New
                && mode == 7 * 64 + 5 * 8 + 5,
            UpgradeAction::Remove { binary } => (u.phase is Clear || u.phase is Tidy) && binary
                == Binary::Old,
            UpgradeAction::Rename { from, to } => {
                ||| u.phase is MoveAway && from == Binary::Current && to == Binary::Old
                ||| u.phase is Install && from == Binary::New && to == Binary::Current
                ||| u.phase is Rollback && from == Binary::Old && to == Binary::Current
            },
            UpgradeAction::DownloadImage { download } => u.phase is Image && download.phase
                is Directory && download.data_dir@ == u.data_dir@ && download.version@
                == u.latest@,
            UpgradeAction::End => u.phase is Complete || u.phase is UpToDate || u.phase is Failed,
        },
{
}

/// An upgrade that fails says what failed it, and keeps that through a rollback. One
/// that does not fail comes to no error.
pub proof fn law_failed_upgrade_says_why(
    u: &mut Upgrade,
    e: UpgradeEvent,
    before: Result<(), String>,
    after: Result<(), String>,
)
    requires
        old(u).sound(),
        upgrade_answers(old(u).phase, e),
        call_ensures(Upgrade::step, (u, e), ()),
        call_ensures(Upgrade::result, (old(u),), before),
        call_ensures(Upgrade::result, (final(u),), after),
    ensures
        after is Err <==> final(u).phase is Failed || final(u).phase is Rollback,
        before matches Err(m) ==> (after matches Err(n) && n@ == m@),
        before is Ok && after is Err ==> after->Err_0@ == match old(u).phase {
            UpgradePhase::Origin => {
                "This copy was installed via Homebrew. Please run `brew upgrade shuru` instead"@
            },
            UpgradePhase::Request => "failed to check for updates"@,
            UpgradePhase::Parse => "failed to parse release info"@,
            UpgradePhase::Platform => "automatic upgrade is not supported on "@ + e->Platform_os@
                + "-"@ + e->Platform_arch@,
            UpgradePhase::Locate => "failed to determine current binary path"@,
            UpgradePhase::Fetch => "failed to download CLI v"@ + old(u).latest@,
            UpgradePhase::Archive => "failed to read CLI archive"@,
            UpgradePhase::Entry => "failed to read archive entry"@,
            UpgradePhase::Create => "failed to create temp binary"@,
            UpgradePhase::Probe => "'shuru' binary not found in CLI archive"@,
            UpgradePhase::MoveAway => "failed to move current binary (try with sudo?)"@,
            UpgradePhase::Install => "failed to install new binary"@,
            _ => match e {
                UpgradeEvent::Named(Err(x)) => x@,
                UpgradeEvent::Done(Err(x)) => x@,
                _ => Seq::empty(),
            },
        },
        before is Err ==> text_of(final(u).cause) == text_of(old(u).cause),
        before is Ok && after is Err ==> match e {
            UpgradeEvent::Tag(Err(x)) => final(u).cause matches Some(c) && c@ == x@,
            UpgradeEvent::More(Err(x)) => final(u).cause matches Some(c) && c@ == x@,
            UpgradeEvent::Named(Err(x)) => final(u).cause matches Some(c) && c@ == x@,
            UpgradeEvent::Done(Err(x)) => final(u).cause matches Some(c) && c@ == x@,
            _ => final(u).cause is None,
        },
        after is Ok ==> final(u).cause is None,
{
}

/// An upgrade starts with the version and the directory that it was given, and with
/// the binary in its place.
pub proof fn law_new_upgrade(data_dir: &str, current: &str, u: Upgrade, r: Result<(), String>)
    requires
        call_ensures(upgrade, (data_dir, current), u),
        call_ensures(Upgrade::result, (&u,), r),
    ensures
        u.phase is Origin && r is Ok && u.cause is None && u.sound(),
        u.data_dir@ == data_dir@ && u.current_version@ == current@,
        has_binary(u.swap, Binary::Current),
{
}

/// What a user is told of an upgrade: from which version to which, what is downloaded
/// and from where, and what it came to.
pub proof fn law_what_is_said_of_an_upgrade(u: &Upgrade, lines: Vec<String>)
    requires
        call_ensures(Upgrade::notices, (u,), lines),
    ensures
        lines@.len() == match u.phase {
            UpgradePhase::Fetch => 2nat,
            UpgradePhase::Connect | UpgradePhase::UpToDate | UpgradePhase::Platform
            | UpgradePhase::Probe | UpgradePhase::Image | UpgradePhase::Complete => 1,
            _ => 0,
        },
        u.phase is Connect ==> lines@[0]@ == "shuru: checking for updates..."@,
        u.phase is UpToDate ==> lines@[0]@ == "shuru: already on latest version ("@
            + u.current_version@ + ")"@,
        u.phase is Platform ==> lines@[0]@ == "shuru: upgrading "@ + u.current_version@ + " -> "@
            + u.latest@,
        u.phase is Fetch ==> lines@[0]@ == "shuru: downloading CLI ("@ + u.latest@ + ")..."@
            && lines@[1]@ == "shuru: "@ + ("https://github.com/"@ + "superhq-ai/shuru"@
            + "/releases/download/"@ + ("v"@ + u.latest@) + "/"@ + u.tarball@),
        u.phase is Probe ==> lines@[0]@ == ""@,
        u.phase is Image ==> lines@[0]@ == "shuru: CLI updated to "@ + u.latest@,
        u.phase is Complete ==> lines@[0]@ == "shuru: upgrade complete ("@ + u.latest@ + ")"@,
{
    let said = texts_of(lines@);
    assert(said.len() == lines@.len());
    if lines@.len() > 0 {
        assert(said[0] == lines@[0]@);
    }
    if lines@.len() > 1 {
        assert(said[1] == lines@[1]@);
    }
}

/// Until an upgrade ends, every event of the sort that its step ends in is taken.
pub proof fn law_upgrade_takes_every_answer(u: &mut Upgrade, e: UpgradeEvent)
    requires
        old(u).sound(),
        match old(u).phase {
            UpgradePhase::Origin => e is Origin,
            UpgradePhase::Parse => e is Tag,
            UpgradePhase::Platform => e is Platform,
            UpgradePhase::Entry => e is More,
            UpgradePhase::EntryPath => e is Named,
            UpgradePhase::Probe => e is Exists,
            _ => e is Done,
        },
        !(old(u).phase is Complete || old(u).phase is UpToDate || old(u).phase is Failed),
    ensures
        call_requires(Upgrade::step, (u, e)),
{
}

} // verus!
