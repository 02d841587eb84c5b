//! The OS image: whether it is there, and how it is downloaded.

use vstd::prelude::*;
use vstd::string::StringExecFns;

use crate::text::{concat, str_eq, trim};

verus! {

use crate::sdk::boot::{initrd_path, kernel_path, rootfs_path};
use crate::text::{is_space, text_of, texts_of, trimmed, trimmed_end, trimmed_start};

/// The repository that releases come from.
pub const GITHUB_REPO: &'static str = "superhq-ai/shuru";

/// The files of an OS image.
pub struct AssetPaths {
    pub kernel: String,
    pub rootfs: String,
    pub initramfs: String,
    /// The file that says which version the image has.
    pub version: String,
}

/// The file that says which version the image in a data directory has.
pub open spec fn version_file(data_dir: Seq<char>) -> Seq<char> {
    data_dir + "/VERSION"@
}

impl AssetPaths {
    /// The files of the image in a data directory.
    pub fn new(data_dir: &str) -> (r: Self)
        ensures
            r.kernel@ == kernel_path(data_dir@),
            r.rootfs@ == rootfs_path(data_dir@),
            r.initramfs@ == initrd_path(data_dir@),
            r.version@ == version_file(data_dir@),
    {
        AssetPaths {
            kernel: concat(data_dir, "/Image"),
            rootfs: concat(data_dir, "/rootfs.ext4"),
            initramfs: concat(data_dir, "/initramfs.cpio.gz"),
            version: concat(data_dir, "/VERSION"),
        }
    }
}

/// An OS image is there and has the current version: so many of its files are
/// there, and that is what its version file says.
pub open spec fn is_ready(
    kernel: bool,
    rootfs: bool,
    initramfs: bool,
    version: Option<Seq<char>>,
    current_version: Seq<char>,
) -> bool {
    kernel && rootfs && initramfs && (version matches Some(v) && trimmed(v) == current_version)
}

/// Tells whether an OS image is there and has the current version, from which of
/// its files are there and from what its version file says, if it can be read.
pub fn assets_ready(
    kernel: bool,
    rootfs: bool,
    initramfs: bool,
    version: Option<&str>,
    current_version: &str,
) -> (r: bool)
    ensures
        r == is_ready(
            kernel,
            rootfs,
            initramfs,
            match version {
                Some(v) => Some(v@),
                None => None,
            },
            current_version@,
        ),
{
    if !kernel || !rootfs || !initramfs {
        return false;
    }
    match version {
        Some(v) => {
            let v = trim(v);
            str_eq(v.as_str(), current_version)
        },
        None => false,
    }
}

/// The tag of a release.
pub open spec fn release_tag(version: Seq<char>) -> Seq<char> {
    "v"@ + version
}

/// The address of a file of a release.
pub open spec fn release_url(tag: Seq<char>, file: Seq<char>) -> Seq<char> {
    "https://github.com/"@ + GITHUB_REPO@ + "/releases/download/"@ + tag + "/"@ + file
}

/// The name of the image archive of a release.
pub open spec fn image_archive(tag: Seq<char>) -> Seq<char> {
    "shuru-os-"@ + tag + "-aarch64.tar.gz"@
}

/// What the version file says.
pub open spec fn version_text(version: Seq<char>) -> Seq<char> {
    version + "\n"@
}

/// Computes `release_url`.
pub fn make_release_url(tag: &str, file: &str) -> (r: String)
    ensures
        r@ == release_url(tag@, file@),
{
    let mut r = concat("https://github.com/", GITHUB_REPO);
    r.append("/releases/download/");
    r.append(tag);
    r.append("/");
    r.append(file);
    r
}

/// The step of a download that is being taken.
#[derive(Debug, Clone, Copy, PartialEq, Eq, Structural)]
pub enum DownloadPhase {
    /// Creating the data directory.
    Directory,
    /// Setting up the connection.
    Connect,
    /// Requesting the archive.
    Fetch,
    /// Unpacking the archive as it arrives.
    Unpack,
    /// Writing the version file.
    Stamp,
    /// The image is there.
    Done,
    /// The download failed.
    Failed,
}

/// How far a download is.
pub open spec fn download_stage(p: DownloadPhase) -> int {
    match p {
        DownloadPhase::Directory => 0,
        DownloadPhase::Connect => 1,
        DownloadPhase::Fetch => 2,
        DownloadPhase::Unpack => 3,
        DownloadPhase::Stamp => 4,
        DownloadPhase::Done => 5,
        DownloadPhase::Failed => 5,
    }
}

/// A step to take.
pub enum DownloadAction {
    CreateDir { path: String },
    Connect,
    Fetch { url: String },
    Unpack { into: String },
    Write { path: String, text: String },
    /// Nothing: the image is there.
    Done,
    /// Nothing: the download failed.
    Failed,
}

/// A download of the OS image.
pub struct ImageDownload {
    pub phase: DownloadPhase,
    pub data_dir: String,
    pub version: String,
    /// What is said of why the download failed.
    pub error: Option<String>,
    /// What was reported of the step that failed it.
    pub cause: Option<String>,
}

/// Downloads the OS image of the current version.
pub fn download_os_image(data_dir: &str, current_version: &str) -> (r: ImageDownload)
    ensures
        r.phase is Directory,
        r.sound(),
        r.data_dir@ == data_dir@,
        r.version@ == current_version@,
        r.error is None,
        r.cause is None,
{
    download_os_image_version(data_dir, current_version)
}

/// Downloads the OS image of a version.
pub fn download_os_image_version(data_dir: &str, version: &str) -> (r: ImageDownload)
    ensures
        r.phase is Directory,
        r.sound(),
        r.data_dir@ == data_dir@,
        r.version@ == version@,
        r.error is None,
        r.cause is None,
{
    ImageDownload {
        phase: DownloadPhase::Directory,
        data_dir: data_dir.to_string(),
        version: version.to_string(),
        error: None,
        cause: None,
    }
}

impl ImageDownload {
    /// There is something to say exactly where the download failed.
    pub open spec fn sound(self) -> bool {
        self.phase is Failed <==> self.error is Some
    }

    /// What the download comes to.
    pub open spec fn outcome(self) -> Result<(), Seq<char>> {
        match self.error {
            Some(message) => Err(message@),
            None => Ok(()),
        }
    }

    /// What the download came to, once it has ended.
    pub fn result(&self) -> (r: Result<(), String>)
        ensures
            match r {
                Ok(_) => self.outcome() == Ok::<(), Seq<char>>(()),
                Err(message) => self.outcome() == Err::<(), Seq<char>>(message@),
            },
    {
        match &self.error {
            Some(message) => Err(message.clone()),
            None => Ok(()),
        }
    }

    /// The step after this one.
    pub open spec fn next_phase(self, answer: Result<(), String>) -> DownloadPhase {
        match answer {
            Err(_) => DownloadPhase::Failed,
            Ok(_) => match self.phase {
                DownloadPhase::Directory => DownloadPhase::Connect,
                DownloadPhase::Connect => DownloadPhase::Fetch,
                DownloadPhase::Fetch => DownloadPhase::Unpack,
                DownloadPhase::Unpack => DownloadPhase::Stamp,
                _ => DownloadPhase::Done,
            },
        }
    }

    /// What is said of a step that failed.
    pub open spec fn complaint(self, cause: Seq<char>) -> Seq<char> {
        match self.phase {
            DownloadPhase::Directory => "failed to create data directory: "@ + self.data_dir@,
            DownloadPhase::Fetch => "download failed \u{2014} is version "@ + release_tag(
                self.version@,
            ) + " released?"@,
            DownloadPhase::Unpack => "failed to extract OS image"@,
            DownloadPhase::Stamp => "failed to write VERSION file"@,
            _ => cause,
        }
    }

    /// Computes `release_tag` of the version.
    fn tag(&self) -> (r: String)
        ensures
            r@ == release_tag(self.version@),
    {
        concat("v", self.version.as_str())
    }

    /// The address of the archive.
    pub fn url(&self) -> (r: String)
        ensures
            r@ == release_url(
                release_tag(self.version@),
                image_archive(release_tag(self.version@)),
            ),
    {
        let tag = self.tag();
        let mut file = concat("shuru-os-", tag.as_str());
        file.append("-aarch64.tar.gz");
        make_release_url(tag.as_str(), file.as_str())
    }

    /// Takes up the answer to the current step and goes on to the next one.
    pub fn step(&mut self, answer: Result<(), String>)
        requires
            download_stage(old(self).phase) < 5,
        ensures
            old(self).sound() ==> final(self).sound(),
            final(self).phase == old(self).next_phase(answer),
            final(self).data_dir == old(self).data_dir,
            final(self).version == old(self).version,
            text_of(final(self).error) == (match answer {
                Err(cause) => Some(old(self).complaint(cause@)),
                Ok(_) => text_of(old(self).error),
            }),
            text_of(final(self).cause) == (match answer {
                Err(cause) => Some(cause@),
                Ok(_) => text_of(old(self).cause),
            }),
    {
        match answer {
            Err(cause) => {
                let complaint = match self.phase {
                    DownloadPhase::Directory => concat(
                        "failed to create data directory: ",
                        self.data_dir.as_str(),
                    ),
                    DownloadPhase::Fetch => {
                        let tag = self.tag();
                        let mut r = concat("download failed \u{2014} is version ", tag.as_str());
                        r.append(" released?");
                        r
                    },
                    DownloadPhase::Unpack => "failed to extract OS image".to_string(),
                    DownloadPhase::Stamp => "failed to write VERSION file".to_string(),
                    _ => cause.clone(),
                };
                self.error = Some(complaint);
                self.cause = Some(cause);
                self.phase = DownloadPhase::Failed;
            },
            Ok(_) => {
                self.phase = match self.phase {
                    DownloadPhase::Directory => DownloadPhase::Connect,
                    DownloadPhase::Connect => DownloadPhase::Fetch,
                    DownloadPhase::Fetch => DownloadPhase::Unpack,
                    DownloadPhase::Unpack => DownloadPhase::Stamp,
                    _ => DownloadPhase::Done,
                };
            },
        }
    }

    /// The step to take now.
    pub fn action(&self) -> (r: DownloadAction)
        ensures
            match self.phase {
                DownloadPhase::Directory => r matches DownloadAction::CreateDir { path } && path@
                    == self.data_dir@,
                DownloadPhase::Connect => r is Connect,
                DownloadPhase::Fetch => r matches DownloadAction::Fetch { url } && url@
                    == release_url(
                    release_tag(self.version@),
                    image_archive(release_tag(self.version@)),
                ),
                DownloadPhase::Unpack => r matches DownloadAction::Unpack { into } && into@
                    == self.data_dir@,
                DownloadPhase::Stamp => r matches DownloadAction::Write { path, text } && path@
                    == version_file(self.data_dir@) && text@ == version_text(self.version@),
                DownloadPhase::Done => r is Done,
                DownloadPhase::Failed => r is Failed,
            },
    {
        match self.phase {
            DownloadPhase::Directory => DownloadAction::CreateDir { path: self.data_dir.clone() },
            DownloadPhase::Connect => DownloadAction::Connect,
            DownloadPhase::Fetch => DownloadAction::Fetch { url: self.url() },
            DownloadPhase::Unpack => DownloadAction::Unpack { into: self.data_dir.clone() },
            DownloadPhase::Stamp => DownloadAction::Write {
                path: concat(self.data_dir.as_str(), "/VERSION"),
                text: concat(self.version.as_str(), "\n"),
            },
            DownloadPhase::Done => DownloadAction::Done,
            DownloadPhase::Failed => DownloadAction::Failed,
        }
    }

    /// The lines that tell a user about the current step, before it is taken.
    pub fn notices(&self) -> (r: Vec<String>)
        ensures
            texts_of(r@) == (match self.phase {
                DownloadPhase::Connect => seq![
                    "shuru: downloading OS image ("@ + release_tag(self.version@) + ")..."@,
                    "shuru: "@ + release_url(
                        release_tag(self.version@),
                        image_archive(release_tag(self.version@)),
                    ),
                ],
                DownloadPhase::Stamp => seq![""@],
                DownloadPhase::Done => seq!["shuru: OS image ready ("@ + self.version@ + ")"@],
                _ => Seq::<Seq<char>>::empty(),
            }),
    {
        let mut r: Vec<String> = Vec::new();
        match self.phase {
            DownloadPhase::Connect => {
                let tag = self.tag();
                let mut first = concat("shuru: downloading OS image (", tag.as_str());
                first.append(")...");
                r.push(first);
                let url = self.url();
                r.push(concat("shuru: ", url.as_str()));
            },
            DownloadPhase::Stamp => {
                r.push("".to_string());
            },
            DownloadPhase::Done => {
                let mut line = concat("shuru: OS image ready (", self.version.as_str());
                line.append(")");
                r.push(line);
            },
            _ => {},
        }
        proof {
            let url = release_url(
                release_tag(self.version@),
                image_archive(release_tag(self.version@)),
            );
            let lines = texts_of(r@);
            match self.phase {
                DownloadPhase::Connect => {
                    assert(lines =~= seq![
                        "shuru: downloading OS image ("@ + release_tag(self.version@) + ")..."@,
                        "shuru: "@ + url,
                    ]);
                },
                DownloadPhase::Stamp => {
                    assert(lines =~= seq![""@]);
                },
                DownloadPhase::Done => {
                    assert(lines =~= seq!["shuru: OS image ready ("@ + self.version@ + ")"@]);
                },
                _ => {
                    assert(lines =~= Seq::<Seq<char>>::empty());
                },
            }
        }
        r
    }
}

/// A download comes to an end: every step goes to a later stage.
pub proof fn law_download_advances(d: ImageDownload, answer: Result<(), String>)
    requires
        download_stage(d.phase) < 5,
    ensures
        download_stage(d.phase) < download_stage(d.next_phase(answer)) <= 5,
{
}

/// The version file is written last: an image counts as having a version only
/// after all of it was unpacked.
pub proof fn law_version_is_written_last(d: ImageDownload, answer: Result<(), String>)
    requires
        d.next_phase(answer) is Stamp,
    ensures
        d.phase is Unpack && answer is Ok,
{
}

/// Trimming makes nothing longer.
proof fn lemma_trim_shortens(s: Seq<char>)
    ensures
        trimmed_start(s).len() <= s.len(),
        trimmed_end(s).len() <= s.len(),
    decreases s.len(),
{
    if s.len() > 0 {
        lemma_trim_shortens(s.drop_first());
        lemma_trim_shortens(s.drop_last());
    }
}

/// A downloaded image is recognised: the version file that a download writes
/// reads as the version that was downloaded. This holds of every version that
/// does not itself start or end in white space.
pub proof fn law_downloaded_version_is_recognised(version: Seq<char>)
    requires
        trimmed(version) == version,
    ensures
        trimmed(version_text(version)) == version,
{
    reveal_strlit("\n");
    let text = version_text(version);
    assert(is_space('\n'));
    assert(text.last() == '\n');
    assert(text.drop_last() =~= version);
    if version.len() == 0 {
        assert(text.drop_first() =~= version);
        assert(trimmed_start(text) == trimmed_start(version));
    } else {
        lemma_trim_shortens(version);
        lemma_trim_shortens(trimmed_start(version));
        if is_space(version[0]) {
            lemma_trim_shortens(version.drop_first());
        }
        assert(!is_space(version[0]));
        if is_space(version.last()) {
            lemma_trim_shortens(version.drop_last());
        }
        assert(!is_space(version.last()));
        assert(text[0] == version[0]);
        assert(trimmed_start(text) == text);
        assert(trimmed_end(text) == trimmed_end(version));
    }
}

/// The text of a file, if it is there and is text.
pub open spec fn text_in(files: Map<Seq<char>, Seq<u8>>, path: Seq<char>) -> Option<Seq<char>> {
    if files.contains_key(path) && vstd::utf8::valid_utf8(files[path]) {
        Some(vstd::utf8::decode_utf8(files[path]))
    } else {
        None
    }
}

/// Among `files`, by path, there is an OS image of this version.
pub open spec fn image_ready(
    files: Map<Seq<char>, Seq<u8>>,
    data_dir: Seq<char>,
    version: Seq<char>,
) -> bool {
    is_ready(
        files.contains_key(kernel_path(data_dir)),
        files.contains_key(rootfs_path(data_dir)),
        files.contains_key(initrd_path(data_dir)),
        text_in(files, version_file(data_dir)),
        version,
    )
}

/// What taking the current step of a download does to the files, given what came
/// of it. The archive holds `archive`, by where it is unpacked to. A step that
/// failed may have been taken in part.
pub open spec fn step_taken(
    d: ImageDownload,
    answer: Result<(), String>,
    archive: Map<Seq<char>, Seq<u8>>,
    before: Map<Seq<char>, Seq<u8>>,
    after: Map<Seq<char>, Seq<u8>>,
) -> bool {
    match d.phase {
        DownloadPhase::Unpack => if answer is Ok {
            after == before.union_prefer_right(archive)
        } else {
            forall|path: Seq<char>| #[trigger]
                archive.contains_key(path) || same_file(before, after, path)
        },
        DownloadPhase::Stamp => if answer is Ok {
            after == before.insert(
                version_file(d.data_dir@),
                vstd::utf8::encode_utf8(version_text(d.version@)),
            )
        } else {
            forall|path: Seq<char>|
                path == version_file(d.data_dir@) || #[trigger] same_file(before, after, path)
        },
        _ => after == before,
    }
}

/// The file at a path is as it was, or still not there.
pub open spec fn same_file(
    before: Map<Seq<char>, Seq<u8>>,
    after: Map<Seq<char>, Seq<u8>>,
    path: Seq<char>,
) -> bool {
    &&& before.contains_key(path) == after.contains_key(path)
    &&& before.contains_key(path) ==> before[path] == after[path]
}

/// Step `i` of a download leads from one state to the next, and from the files
/// before it to those after it.
pub open spec fn goes_on(
    states: Seq<ImageDownload>,
    answers: Seq<Result<(), String>>,
    files: Seq<Map<Seq<char>, Seq<u8>>>,
    archive: Map<Seq<char>, Seq<u8>>,
    i: int,
) -> bool {
    let (now, next) = (states[i], states[i + 1]);
    &&& download_stage(now.phase) < 5
    &&& next.sound()
    &&& next.phase == now.next_phase(answers[i])
    &&& next.data_dir == now.data_dir
    &&& next.version == now.version
    &&& step_taken(now, answers[i], archive, files[i], files[i + 1])
}

/// A download from its first step on: the states that it goes through, what came
/// of the steps, and the files before and after each.
pub open spec fn is_download(
    states: Seq<ImageDownload>,
    answers: Seq<Result<(), String>>,
    files: Seq<Map<Seq<char>, Seq<u8>>>,
    archive: Map<Seq<char>, Seq<u8>>,
) -> bool {
    &&& states.len() == answers.len() + 1
    &&& files.len() == states.len()
    &&& states[0].phase is Directory
    &&& states[0].sound()
    &&& forall|i: int|
        0 <= i < answers.len() ==> #[trigger] goes_on(states, answers, files, archive, i)
}

/// As long as no step failed, a download is at the stage of the steps it took.
proof fn lemma_download_stages(
    states: Seq<ImageDownload>,
    answers: Seq<Result<(), String>>,
    files: Seq<Map<Seq<char>, Seq<u8>>>,
    archive: Map<Seq<char>, Seq<u8>>,
    n: int,
)
    requires
        is_download(states, answers, files, archive),
        0 <= n <= answers.len(),
    ensures
        n <= 5,
        states[n].data_dir == states[0].data_dir,
        states[n].version == states[0].version,
        states[n].sound(),
        states[n].phase is Failed || download_stage(states[n].phase) == n,
    decreases n,
{
    if n > 0 {
        lemma_download_stages(states, answers, files, archive, n - 1);
        assert(goes_on(states, answers, files, archive, n - 1));
    }
}

/// A download leaves an image that is ready: where it comes to its end, and its
/// archive holds the files of an image, those are there, and the version file
/// says which version was downloaded.
pub proof fn law_download_leaves_a_ready_image(
    states: Seq<ImageDownload>,
    answers: Seq<Result<(), String>>,
    files: Seq<Map<Seq<char>, Seq<u8>>>,
    archive: Map<Seq<char>, Seq<u8>>,
)
    requires
        is_download(states, answers, files, archive),
        states.last().phase is Done,
        archive.contains_key(kernel_path(states[0].data_dir@)),
        archive.contains_key(rootfs_path(states[0].data_dir@)),
        archive.contains_key(initrd_path(states[0].data_dir@)),
        trimmed(states[0].version@) == states[0].version@,
    ensures
        states.last().outcome() is Ok,
        text_in(files.last(), version_file(states[0].data_dir@)) == Some(
            version_text(states[0].version@),
        ),
        image_ready(files.last(), states[0].data_dir@, states[0].version@),
{
    broadcast use vstd::utf8::encode_utf8_decode_utf8, vstd::utf8::encode_utf8_valid_utf8;

    let n = answers.len() as int;
    lemma_download_stages(states, answers, files, archive, n);
    assert(n == 5);
    lemma_download_stages(states, answers, files, archive, 4);
    lemma_download_stages(states, answers, files, archive, 3);
    assert(goes_on(states, answers, files, archive, 4));
    assert(goes_on(states, answers, files, archive, 3));
    assert(states[4].phase is Stamp && answers[4] is Ok);
    assert(states[3].phase is Unpack && answers[3] is Ok);
    law_downloaded_version_is_recognised(states[0].version@);
}

/// A download that fails before the version file is written is an error and leaves
/// that file alone, unless the archive itself holds one.
pub proof fn law_failed_download_writes_no_version(
    states: Seq<ImageDownload>,
    answers: Seq<Result<(), String>>,
    files: Seq<Map<Seq<char>, Seq<u8>>>,
    archive: Map<Seq<char>, Seq<u8>>,
)
    requires
        is_download(states, answers, files, archive),
        states.last().phase is Failed,
        forall|i: int| 0 <= i < states.len() ==> !((#[trigger] states[i]).phase is Stamp),
        !archive.contains_key(version_file(states[0].data_dir@)),
    ensures
        states.last().outcome() is Err,
        same_file(files[0], files.last(), version_file(states[0].data_dir@)),
{
    lemma_download_stages(states, answers, files, archive, answers.len() as int);
    lemma_version_untouched(states, answers, files, archive, answers.len() as int);
}

/// Before it is written, the version file is as it was.
proof fn lemma_version_untouched(
    states: Seq<ImageDownload>,
    answers: Seq<Result<(), String>>,
    files: Seq<Map<Seq<char>, Seq<u8>>>,
    archive: Map<Seq<char>, Seq<u8>>,
    n: int,
)
    requires
        is_download(states, answers, files, archive),
        forall|i: int| 0 <= i < states.len() ==> !((#[trigger] states[i]).phase is Stamp),
        !archive.contains_key(version_file(states[0].data_dir@)),
        0 <= n <= answers.len(),
    ensures
        same_file(files[0], files[n], version_file(states[0].data_dir@)),
    decreases n,
{
    if n > 0 {
        let path = version_file(states[0].data_dir@);
        lemma_version_untouched(states, answers, files, archive, n - 1);
        assert(goes_on(states, answers, files, archive, n - 1));
        lemma_download_stages(states, answers, files, archive, n - 1);
        assert(archive.contains_key(path) || same_file(files[n - 1], files[n], path));
    }
}

/// The name that releases have for a platform.
pub open spec fn platform(os: Seq<char>, arch: Seq<char>) -> Option<Seq<char>> {
    if os == "macos"@ && arch == "aarch64"@ {
        Some("darwin-aarch64"@)
    } else if os == "linux"@ && arch == "aarch64"@ {
        Some("linux-aarch64"@)
    } else {
        None
    }
}

/// The archive of the command line for a platform, or a message that there is
/// none.
pub fn cli_tarball_name(version: &str, os: &str, arch: &str) -> (r: Result<String, String>)
    ensures
        match platform(os@, arch@) {
            Some(p) => r matches Ok(name) && name@ == "shuru-v"@ + version@ + "-"@ + p
                + ".tar.gz"@,
            None => r matches Err(e) && e@ == "automatic upgrade is not supported on "@ + os@ + "-"@
                + arch@,
        },
{
    let platform = if str_eq(os, "macos") && str_eq(arch, "aarch64") {
        "darwin-aarch64"
    } else if str_eq(os, "linux") && str_eq(arch, "aarch64") {
        "linux-aarch64"
    } else {
        let mut e = concat("automatic upgrade is not supported on ", os);
        e.append("-");
        e.append(arch);
        return Err(e);
    };
    let mut name = concat("shuru-v", version);
    name.append("-");
    name.append(platform);
    name.append(".tar.gz");
    Ok(name)
}

/// An image is ready exactly where all of its files are there and its version file,
/// without the white space around it, says the current version.
pub proof fn law_when_an_image_is_ready(
    files: (bool, bool, bool),
    version: Option<&str>,
    current: &str,
    r: bool,
    said: String,
)
    requires
        call_ensures(assets_ready, (files.0, files.1, files.2, version, current), r),
        version matches Some(v) ==> call_ensures(trim, (v,), said),
    ensures
        r <==> files.0 && files.1 && files.2 && version is Some && said@ == current@,
{
}

/// The files of an image are in its data directory, under their own names.
pub proof fn law_files_of_an_image(data_dir: &str, r: AssetPaths)
    requires
        call_ensures(AssetPaths::new, (data_dir,), r),
    ensures
        r.kernel@ == data_dir@ + "/Image"@,
        r.rootfs@ == data_dir@ + "/rootfs.ext4"@,
        r.initramfs@ == data_dir@ + "/initramfs.cpio.gz"@,
        r.version@ == data_dir@ + "/VERSION"@,
{
}

/// What leads to each step of a download: the step before it, where it went well.
/// It fails exactly where a step did.
pub proof fn law_what_leads_to_a_download_step(d: &mut ImageDownload, answer: Result<(), String>)
    requires
        !(old(d).phase is Done) && !(old(d).phase is Failed),
        call_ensures(ImageDownload::step, (d, answer), ()),
    ensures
        ({
            let was = old(d).phase;
            match final(d).phase {
                DownloadPhase::Directory => false,
                DownloadPhase::Connect => was is Directory && answer is Ok,
                DownloadPhase::Fetch => was is Connect && answer is Ok,
                DownloadPhase::Unpack => was is Fetch && answer is Ok,
                DownloadPhase::Stamp => was is Unpack && answer is Ok,
                DownloadPhase::Done => was is Stamp && answer is Ok,
                DownloadPhase::Failed => answer is Err,
            }
        }),
        final(d).data_dir == old(d).data_dir && final(d).version == old(d).version,
{
}

/// What a download does, and with what: everything goes to the data directory, the
/// archive is the one of the release with this version, and the version file says
/// the version and ends the line.
pub proof fn law_what_a_download_does(d: &ImageDownload, a: DownloadAction, url: String)
    requires
        call_ensures(ImageDownload::action, (d,), a),
        call_ensures(ImageDownload::url, (d,), url),
    ensures
        url@ == "https://github.com/"@ + "superhq-ai/shuru"@ + "/releases/download/"@ + ("v"@
            + d.version@) + "/"@ + ("shuru-os-"@ + ("v"@ + d.version@) + "-aarch64.tar.gz"@),
        match a {
            DownloadAction::CreateDir { path } => d.phase is Directory && path@ == d.data_dir@,
            DownloadAction::Connect => d.phase is Connect,
            DownloadAction::Fetch { url: u } => d.phase is Fetch && u@ == url@,
            DownloadAction::Unpack { into } => d.phase is Unpack && into@ == d.data_dir@,
            DownloadAction::Write { path, text } => d.phase is Stamp && path@ == d.data_dir@
                + "/VERSION"@ && text@ == d.version@ + "\n"@,
            DownloadAction::Done => d.phase is Done,
            DownloadAction::Failed => d.phase is Failed,
        },
{
}

/// A download that a step fails says which, and keeps what was reported of it; one
/// that no step fails says nothing.
pub proof fn law_failed_download_says_which_step(
    d: &mut ImageDownload,
    answer: Result<(), String>,
    before: Result<(), String>,
    after: Result<(), String>,
)
    requires
        call_ensures(ImageDownload::step, (d, answer), ()),
        call_ensures(ImageDownload::result, (old(d),), before),
        call_ensures(ImageDownload::result, (final(d),), after),
        before is Ok,
    ensures
        match answer {
            Ok(_) => after is Ok && (final(d).cause is Some <==> old(d).cause is Some),
            Err(e) => {
                &&& final(d).cause matches Some(c) && c@ == e@
                &&& after matches Err(m) && m@ == match old(d).phase {
                    DownloadPhase::Directory => "failed to create data directory: "@ + old(
                        d,
                    ).data_dir@,
                    DownloadPhase::Fetch => "download failed \u{2014} is version "@ + ("v"@ + old(
                        d,
                    ).version@) + " released?"@,
                    DownloadPhase::Unpack => "failed to extract OS image"@,
                    DownloadPhase::Stamp => "failed to write VERSION file"@,
                    _ => e@,
                }
            },
        },
{
    assert(text_of(final(d).cause) is Some == (final(d).cause is Some));
    assert(text_of(old(d).cause) is Some == (old(d).cause is Some));
}

/// A download is of the version that was asked for, and starts at the beginning.
pub proof fn law_new_download(
    data_dir: &str,
    version: &str,
    a: ImageDownload,
    b: ImageDownload,
    r: Result<(), String>,
    q: Result<(), String>,
)
    requires
        call_ensures(download_os_image, (data_dir, version), a),
        call_ensures(download_os_image_version, (data_dir, version), b),
        call_ensures(ImageDownload::result, (&a,), r),
        call_ensures(ImageDownload::result, (&b,), q),
    ensures
        a.phase is Directory && b.phase is Directory && r is Ok && q is Ok,
        a.cause is None && b.cause is None,
        a.data_dir@ == data_dir@ && b.data_dir@ == data_dir@,
        a.version@ == version@ && b.version@ == version@,
{
}

/// What a user is told of a download: what is downloaded and from where, and at the
/// end that the image is ready.
pub proof fn law_what_is_said_of_a_download(d: &ImageDownload, lines: Vec<String>, url: String)
    requires
        call_ensures(ImageDownload::notices, (d,), lines),
        call_ensures(ImageDownload::url, (d,), url),
    ensures
        lines@.len() == match d.phase {
            DownloadPhase::Connect => 2nat,
            DownloadPhase::Stamp | DownloadPhase::Done => 1,
            _ => 0,
        },
        d.phase is Connect ==> lines@[0]@ == "shuru: downloading OS image ("@ + ("v"@ + d.version@)
            + ")..."@ && lines@[1]@ == "shuru: "@ + url@,
        d.phase is Stamp ==> lines@[0]@ == ""@,
        d.phase is Done ==> lines@[0]@ == "shuru: OS image ready ("@ + d.version@ + ")"@,
{
    let said = texts_of(lines@);
    assert(said.len() == lines@.len());
    if d.phase is Connect {
        assert(said[0] == lines@[0]@ && said[1] == lines@[1]@);
    }
    if d.phase is Stamp || d.phase is Done {
        assert(said[0] == lines@[0]@);
    }
}

/// There are archives of the command line for two platforms, each under its own
/// name, and for any other platform there is an error that names it.
pub proof fn law_archives_of_the_command_line(
    version: &str,
    os: &str,
    arch: &str,
    r: Result<String, String>,
)
    requires
        call_ensures(cli_tarball_name, (version, os, arch), r),
    ensures
        r is Ok <==> arch@ == "aarch64"@ && (os@ == "macos"@ || os@ == "linux"@),
        r matches Ok(name) ==> name@ == "shuru-v"@ + version@ + "-"@ + (if os@ == "macos"@ {
            "darwin-aarch64"@
        } else {
            "linux-aarch64"@
        }) + ".tar.gz"@,
        r matches Err(m) ==> m@ == "automatic upgrade is not supported on "@ + os@ + "-"@ + arch@,
{
}

/// The address of a file of a release is below the release, which is named by its
/// tag.
pub proof fn law_addresses_of_releases(tag: &str, file: &str, r: String)
    requires
        call_ensures(make_release_url, (tag, file), r),
    ensures
        r@ == "https://github.com/"@ + "superhq-ai/shuru"@ + "/releases/download/"@ + tag@ + "/"@
            + file@,
{
}

/// Until a download ends, every answer is taken.
pub proof fn law_download_takes_every_answer(d: &mut ImageDownload, answer: Result<(), String>)
    requires
        !(old(d).phase is Done || old(d).phase is Failed),
    ensures
        call_requires(ImageDownload::step, (d, answer)),
{
}

} // verus!
