//! Updates: which release is newer, what to take from its archive, and how to put it in place.
//!
//! The requests to the release server and the work on files are the caller's.
use crate::archive::{archive_contents, archive_entry, archive_len, names_directory};
use crate::archive::{zip_contents, zip_entry, zip_len, ZipEntry};
use crate::text::{after, chars_of, find_char, piece, str_ends_with, str_eq, str_starts_with};
use crate::text::{decimal, digit_char, law_split_at_a_character, law_strip_leading};
use crate::text::law_trim_leaves_what_is_between;
use crate::text::{strip_leading, trim, trim_end, trim_range, trim_start, until, white_space};
use vstd::prelude::*;

verus! {

/// The value of a decimal digit.
pub open spec fn digit_value(c: char) -> Option<nat> {
    if 48 <= c as u32 <= 57 {
        Some((c as u32 - 48) as nat)
    } else {
        None
    }
}

/// The number that a string of digits denotes; `None` if something else is in it.
pub open spec fn digits_value(s: Seq<char>) -> Option<nat>
    decreases s.len(),
{
    if s.len() == 0 {
        Some(0)
    } else {
        match (digits_value(s.drop_last()), digit_value(s.last())) {
            (Some(high), Some(low)) => Some(high * 10 + low),
            _ => None,
        }
    }
}

/// A text without the plus sign that it may begin with.
pub open spec fn unsigned_part(s: Seq<char>) -> Seq<char> {
    if s.len() > 0 && s[0] == '+' {
        s.drop_first()
    } else {
        s
    }
}

/// One part of a version: a number of at most 64 bits, and zero where there is none.
pub open spec fn version_part(s: Seq<char>) -> u64 {
    let digits = unsigned_part(s);
    match digits_value(digits) {
        Some(value) if digits.len() > 0 && value <= u64::MAX => value as u64,
        _ => 0,
    }
}

/// The first part of a version, if there is one.
pub open spec fn first_part(s: Option<Seq<char>>) -> u64 {
    match s {
        Some(text) => version_part(until(text, '.')),
        None => 0,
    }
}

/// What follows the first part of a version and its dot.
pub open spec fn past_part(s: Option<Seq<char>>) -> Option<Seq<char>> {
    match s {
        Some(text) => after(text, '.'),
        None => None,
    }
}

/// The three numbers of a version such as `v1.2.3`; what is missing or no number counts as zero.
pub open spec fn version_of(s: Seq<char>) -> (u64, u64, u64) {
    let parts = Some(strip_leading(trim(s), 'v'));
    (
        first_part(parts),
        first_part(past_part(parts)),
        first_part(past_part(past_part(parts))),
    )
}

/// Whether a version is older than another or the same: the first number that differs decides.
pub open spec fn version_le(a: (u64, u64, u64), b: (u64, u64, u64)) -> bool {
    a.0 < b.0 || (a.0 == b.0 && (a.1 < b.1 || (a.1 == b.1 && a.2 <= b.2)))
}

/// Digits in front only make a number larger.
proof fn lemma_digits_grow(s: Seq<char>, k: int)
    requires
        0 <= k <= s.len(),
        digits_value(s) is Some,
    ensures
        digits_value(s.take(k)) is Some,
        digits_value(s.take(k))->0 <= digits_value(s)->0,
    decreases s.len() - k,
{
    if k < s.len() {
        lemma_digits_grow(s, k + 1);
        assert(s.take(k + 1).drop_last() =~= s.take(k));
    } else {
        assert(s.take(k) =~= s);
    }
}

/// The part of a version that stands in `chars` from `from` to `to`.
fn part_value(chars: &Vec<char>, from: usize, to: usize) -> (value: u64)
    requires
        from <= to <= chars@.len(),
    ensures
        value == version_part(chars@.subrange(from as int, to as int)),
{
    let ghost part = chars@.subrange(from as int, to as int);
    let start: usize = if from < to && chars[from] == '+' {
        from + 1
    } else {
        from
    };
    let ghost digits = unsigned_part(part);
    assert(digits =~= chars@.subrange(start as int, to as int));
    if start == to {
        return 0;
    }
    let mut value: u64 = 0;
    let mut i: usize = start;
    assert(digits.take(0) =~= Seq::empty());
    while i < to
        invariant
            start <= i <= to <= chars@.len(),
            digits == chars@.subrange(start as int, to as int),
            part == chars@.subrange(from as int, to as int),
            digits == unsigned_part(part),
            digits.len() > 0,
            digits_value(digits.take(i - start)) == Some(value as nat),
        decreases to - i,
    {
        let c: char = chars[i];
        let ghost upto = digits.take(i - start + 1);
        proof {
            assert(upto.drop_last() =~= digits.take(i - start));
            assert(upto.last() == c);
            if digits_value(digits) is Some {
                lemma_digits_grow(digits, i - start + 1);
            }
        }
        let code: u32 = c as u32;
        if code < 48 || code > 57 {
            return 0;
        }
        let digit: u64 = (code - 48) as u64;
        if value > u64::MAX / 10 || value * 10 > u64::MAX - digit {
            return 0;
        }
        value = value * 10 + digit;
        i = i + 1;
    }
    assert(digits.take(to - start) =~= digits);
    value
}

/// Where the text from `from` on begins, past the copies of `v` in front.
fn skip_v(chars: &Vec<char>, from: usize, end: usize) -> (at: usize)
    requires
        from <= end <= chars@.len(),
    ensures
        from <= at <= end,
        chars@.subrange(at as int, end as int) == strip_leading(
            chars@.subrange(from as int, end as int),
            'v',
        ),
{
    let mut at: usize = from;
    while at < end && chars[at] == 'v'
        invariant
            from <= at <= end <= chars@.len(),
            strip_leading(chars@.subrange(from as int, end as int), 'v') == strip_leading(
                chars@.subrange(at as int, end as int),
                'v',
            ),
        decreases end - at,
    {
        assert(chars@.subrange(at as int, end as int).drop_first() =~= chars@.subrange(
            at + 1,
            end as int,
        ));
        at = at + 1;
    }
    at
}

/// The three numbers of a version.
pub fn parse_ver(v: &str) -> (version: (u64, u64, u64))
    ensures
        version == version_of(v@),
{
    let chars = chars_of(v);
    let (start, end) = trim_range(&chars);
    let from: usize = skip_v(&chars, start, end);
    let text = chars_of(v.substring_char(from, end));
    assert(text@.skip(0) =~= text@);
    let first: usize = find_char(&text, 0, '.');
    let major: u64 = part_value(&text, 0, first);
    if first == text.len() {
        return (major, 0, 0);
    }
    let second: usize = find_char(&text, first + 1, '.');
    let minor: u64 = part_value(&text, first + 1, second);
    if second == text.len() {
        return (major, minor, 0);
    }
    let third: usize = find_char(&text, second + 1, '.');
    let patch: u64 = part_value(&text, second + 1, third);
    (major, minor, patch)
}

/// Whether a version is older than another or the same.
pub fn ver_le(a: (u64, u64, u64), b: (u64, u64, u64)) -> (yes: bool)
    ensures
        yes == version_le(a, b),
{
    a.0 < b.0 || (a.0 == b.0 && (a.1 < b.1 || (a.1 == b.1 && a.2 <= b.2)))
}

/// The systems that differ in how they are updated.
#[derive(Debug, Clone, Copy, PartialEq, Eq, Structural)]
pub enum Platform {
    Windows,
    MacOs,
    Other,
}

/// The file of a release that is for a platform.
pub open spec fn asset_for(platform: Platform) -> Seq<char> {
    match platform {
        Platform::Windows => "SoundTransfer-windows.zip"@,
        Platform::MacOs => "SoundTransfer-macos.zip"@,
        Platform::Other => ""@,
    }
}

pub fn asset_name(platform: Platform) -> (name: &'static str)
    ensures
        name@ == asset_for(platform),
{
    match platform {
        Platform::Windows => "SoundTransfer-windows.zip",
        Platform::MacOs => "SoundTransfer-macos.zip",
        Platform::Other => "",
    }
}

/// Why there is no update, or why it failed.
#[derive(Debug, Clone, Copy, PartialEq, Eq, Structural)]
pub enum UpdateError {
    /// The release is newer, but has no file for this platform.
    NoAsset,
    /// The archive, or an entry of it, cannot be read.
    BadArchive,
    /// There is no program in the archive.
    NoExe,
    /// There are no updates for this platform.
    Unsupported,
}

/// A file of a release.
#[derive(Debug)]
pub struct Asset {
    pub name: String,
    pub browser_download_url: String,
}

/// What the server tells of the latest release.
#[derive(Debug)]
pub struct Release {
    pub tag_name: String,
    pub assets: Vec<Asset>,
}

/// A release to update to.
#[derive(Debug, Clone)]
pub struct Latest {
    pub version: String,
    pub asset_url: String,
}

/// Whether the first file of a release with the given name is the one at position `at`.
pub open spec fn first_asset_at(assets: Seq<Asset>, name: Seq<char>, at: int) -> bool {
    &&& 0 <= at < assets.len()
    &&& assets[at].name@ == name
    &&& forall|k: int| 0 <= k < at ==> (#[trigger] assets[k]).name@ != name
}

/// Whether a release is newer than the version that runs.
pub open spec fn is_newer(tag_name: Seq<char>, current: Seq<char>) -> bool {
    !version_le(version_of(tag_name), version_of(current))
}

/// What there is to update to: nothing unless the release is newer than what runs, and otherwise
/// its first file for this platform.
pub fn check(release: &Release, current: &str, platform: Platform) -> (update: Result<
    Option<Latest>,
    UpdateError,
>)
    ensures
        !is_newer(release.tag_name@, current@) <==> update matches Ok(None),
        update matches Ok(Some(latest)) ==> {
            &&& latest.version@ == release.tag_name@
            &&& exists|at: int| #[trigger] first_asset_at(
                release.assets@,
                asset_for(platform),
                at,
            ) && latest.asset_url@ == release.assets@[at].browser_download_url@
        },
        update is Err <==> {
            &&& is_newer(release.tag_name@, current@)
            &&& forall|k: int|
                0 <= k < release.assets@.len() ==> (#[trigger] release.assets@[k]).name@
                    != asset_for(platform)
        },
        update matches Err(error) ==> error is NoAsset,
{
    if ver_le(parse_ver(release.tag_name.as_str()), parse_ver(current)) {
        return Ok(None);
    }
    let wanted = asset_name(platform);
    let mut i: usize = 0;
    while i < release.assets.len()
        invariant
            wanted@ == asset_for(platform),
            is_newer(release.tag_name@, current@),
            i <= release.assets@.len(),
            forall|k: int|
                0 <= k < i ==> (#[trigger] release.assets@[k]).name@ != asset_for(platform),
        decreases release.assets.len() - i,
    {
        let asset: &Asset = &release.assets[i];
        if str_eq(asset.name.as_str(), wanted) {
            assert(first_asset_at(release.assets@, asset_for(platform), i as int));
            return Ok(
                Some(
                    Latest {
                        version: release.tag_name.clone(),
                        asset_url: asset.browser_download_url.clone(),
                    },
                ),
            );
        }
        i = i + 1;
    }
    Err(UpdateError::NoAsset)
}

/// Whether an entry of an archive is the program for Windows.
pub open spec fn is_exe(name: Seq<char>) -> bool {
    "st.exe"@.is_suffix_of(name)
}

/// Which entry of an archive, at `from` or behind, is the program. Every entry before it must be
/// readable.
pub open spec fn exe_at(entries: Seq<Option<(Seq<char>, Option<u32>)>>, from: nat) -> Result<
    nat,
    UpdateError,
>
    decreases entries.len() - from,
{
    if from >= entries.len() {
        Err(UpdateError::NoExe)
    } else {
        match entries[from as int] {
            None => Err(UpdateError::BadArchive),
            Some((name, _)) => if is_exe(name) {
                Ok(from)
            } else {
                exe_at(entries, from + 1)
            },
        }
    }
}

/// An entry as it is known to `exe_at`.
pub open spec fn entry_view(entry: Option<ZipEntry>) -> Option<(Seq<char>, Option<u32>)> {
    match entry {
        Some(entry) => Some((entry.name@, entry.unix_mode)),
        None => None,
    }
}

/// The entries of an archive as they are known to `exe_at`.
pub open spec fn entries_view(entries: Seq<Option<ZipEntry>>) -> Seq<
    Option<(Seq<char>, Option<u32>)>,
> {
    entries.map_values(|entry: Option<ZipEntry>| entry_view(entry))
}

/// Which of the entries of an archive, as far as they can be read, is the program for Windows.
pub fn find_exe(entries: &Vec<Option<ZipEntry>>) -> (found: Result<usize, UpdateError>)
    ensures
        match (found, exe_at(entries_view(entries@), 0)) {
            (Ok(i), Ok(at)) => i == at && i < entries@.len(),
            (Err(error), Err(expected)) => error == expected,
            _ => false,
        },
{
    let mut i: usize = 0;
    while i < entries.len()
        invariant
            i <= entries@.len(),
            exe_at(entries_view(entries@), 0) == exe_at(entries_view(entries@), i as nat),
        decreases entries.len() - i,
    {
        assert(entries_view(entries@)[i as int] == entry_view(entries@[i as int]));
        match &entries[i] {
            None => {
                return Err(UpdateError::BadArchive);
            },
            Some(entry) => {
                if str_ends_with(entry.name.as_str(), "st.exe") {
                    return Ok(i);
                }
            },
        }
        i = i + 1;
    }
    Err(UpdateError::NoExe)
}

/// The entries of an archive, those that cannot be read among them.
pub open spec fn archive_entries(data: Seq<u8>, len: usize) -> Seq<
    Option<(Seq<char>, Option<u32>)>,
> {
    Seq::new(len as nat, |i: int| archive_entry(data, i as usize))
}

/// The program for Windows in an archive.
pub open spec fn exe_in(data: Seq<u8>) -> Result<Seq<u8>, UpdateError> {
    match archive_len(data) {
        None => Err(UpdateError::BadArchive),
        Some(len) => match exe_at(archive_entries(data, len), 0) {
            Err(error) => Err(error),
            Ok(at) => match archive_contents(data, at as usize) {
                None => Err(UpdateError::BadArchive),
                Some(bytes) => Ok(bytes),
            },
        },
    }
}

/// Whether an outcome is what the specification says, its bytes taken as a sequence.
pub open spec fn same_bytes(
    outcome: Result<Vec<u8>, UpdateError>,
    expected: Result<Seq<u8>, UpdateError>,
) -> bool {
    match (outcome, expected) {
        (Ok(bytes), Ok(seq)) => bytes@ == seq,
        (Err(error), Err(reason)) => error == reason,
        _ => false,
    }
}

/// Takes the program for Windows out of an archive.
pub fn extract_exe(data: &[u8]) -> (exe: Result<Vec<u8>, UpdateError>)
    ensures
        same_bytes(exe, exe_in(data@)),
{
    let len: usize = match zip_len(data) {
        Some(len) => len,
        None => {
            return Err(UpdateError::BadArchive);
        },
    };
    let mut entries: Vec<Option<ZipEntry>> = Vec::new();
    let mut i: usize = 0;
    while i < len
        invariant
            i <= len,
            entries@.len() == i,
            forall|k: int|
                0 <= k < i ==> entry_view(#[trigger] entries@[k]) == archive_entry(
                    data@,
                    k as usize,
                ),
        decreases len - i,
    {
        entries.push(zip_entry(data, i));
        i = i + 1;
    }
    assert(entries_view(entries@) =~= archive_entries(data@, len));
    match find_exe(&entries) {
        Err(error) => Err(error),
        Ok(at) => read_entry(data, at),
    }
}

/// The unpacked contents of an entry of an archive.
pub fn read_entry(data: &[u8], index: usize) -> (contents: Result<Vec<u8>, UpdateError>)
    ensures
        same_bytes(
            contents,
            match archive_contents(data@, index) {
                Some(bytes) => Ok(bytes),
                None => Err(UpdateError::BadArchive),
            },
        ),
{
    match zip_contents(data, index) {
        Some(bytes) => Ok(bytes),
        None => Err(UpdateError::BadArchive),
    }
}

/// What to do with an entry of an archive when the application bundle for macOS is unpacked.
#[derive(Debug, PartialEq, Eq)]
pub enum BundleStep {
    Skip,
    MakeDir { path: String },
    WriteFile { path: String, unix_mode: Option<u32> },
}

/// The path of an entry within the bundle, if it is in it and is not the bundle itself.
pub open spec fn bundle_path(name: Seq<char>) -> Option<Seq<char>> {
    let bundle = "SoundTransfer.app/"@;
    if bundle.is_prefix_of(name) && name.len() > bundle.len() {
        Some(name.skip(bundle.len() as int))
    } else {
        None
    }
}

/// Whether a step is the one for an entry.
pub open spec fn step_for(
    step: BundleStep,
    name: Seq<char>,
    is_dir: bool,
    unix_mode: Option<u32>,
) -> bool {
    match bundle_path(name) {
        None => step is Skip,
        Some(inside) => if is_dir {
            step matches BundleStep::MakeDir { path } && path@ == inside
        } else {
            step matches BundleStep::WriteFile { path, unix_mode: mode } && path@ == inside && mode
                == unix_mode
        },
    }
}

/// What to do with an entry of the archive.
pub fn bundle_entry(entry: &ZipEntry) -> (step: BundleStep)
    ensures
        step_for(step, entry.name@, entry.is_dir, entry.unix_mode),
{
    let name = entry.name.as_str();
    let bundle = "SoundTransfer.app/";
    let skip: usize = bundle.unicode_len();
    let len: usize = name.unicode_len();
    if !str_starts_with(name, bundle) || len <= skip {
        return BundleStep::Skip;
    }
    let path = piece(name, skip, len);
    assert(path@ =~= name@.skip(bundle@.len() as int));
    if entry.is_dir {
        BundleStep::MakeDir { path }
    } else {
        BundleStep::WriteFile { path, unix_mode: entry.unix_mode }
    }
}

/// What to do with the entry of an archive at `index`.
pub fn bundle_step(data: &[u8], index: usize) -> (step: Result<BundleStep, UpdateError>)
    ensures
        match archive_entry(data@, index) {
            None => step == Err::<BundleStep, UpdateError>(UpdateError::BadArchive),
            Some((name, unix_mode)) => step matches Ok(todo) && step_for(
                todo,
                name,
                names_directory(name),
                unix_mode,
            ),
        },
{
    match zip_entry(data, index) {
        None => Err(UpdateError::BadArchive),
        Some(entry) => Ok(bundle_entry(&entry)),
    }
}

/// How a downloaded update is installed.
#[derive(Debug, PartialEq, Eq)]
pub enum InstallPlan {
    /// Put this program in the place of the one that runs.
    ReplaceExe { exe: Vec<u8> },
    /// Unpack these many entries and put the bundle in the place of the one that runs.
    UnpackBundle { entries: usize },
}

/// Whether an outcome is the plan for an archive on a platform.
pub open spec fn plans(
    plan: Result<InstallPlan, UpdateError>,
    platform: Platform,
    data: Seq<u8>,
) -> bool {
    match platform {
        Platform::Windows => match (plan, exe_in(data)) {
            (Ok(InstallPlan::ReplaceExe { exe }), Ok(bytes)) => exe@ == bytes,
            (Err(error), Err(reason)) => error == reason,
            _ => false,
        },
        Platform::MacOs => match archive_len(data) {
            Some(len) => plan == Ok::<InstallPlan, UpdateError>(
                InstallPlan::UnpackBundle { entries: len },
            ),
            None => plan == Err::<InstallPlan, UpdateError>(UpdateError::BadArchive),
        },
        Platform::Other => plan == Err::<InstallPlan, UpdateError>(UpdateError::Unsupported),
    }
}

/// How to install a downloaded archive.
pub fn install(platform: Platform, data: &[u8]) -> (plan: Result<InstallPlan, UpdateError>)
    ensures
        plans(plan, platform, data@),
{
    match platform {
        Platform::Windows => match extract_exe(data) {
            Ok(exe) => Ok(InstallPlan::ReplaceExe { exe }),
            Err(error) => Err(error),
        },
        Platform::MacOs => match zip_len(data) {
            Some(entries) => Ok(InstallPlan::UnpackBundle { entries }),
            None => Err(UpdateError::BadArchive),
        },
        Platform::Other => Err(UpdateError::Unsupported),
    }
}

/// Which part of a path is the application bundle that the program at its end belongs to: in
/// `SoundTransfer.app/Contents/MacOS/st` everything up to the directory `SoundTransfer.app`.
pub open spec fn bundle_in(components: Seq<String>) -> Option<int> {
    let at = components.len() - 4;
    if at >= 0 && ".app"@.is_suffix_of(components[at]@) && components[at]@.len() > 4 {
        Some(at + 1)
    } else {
        None
    }
}

/// How many components of the program's path make up the path of its bundle; `None` if the program
/// is in none.
pub fn bundle_root(components: &Vec<String>) -> (count: Option<usize>)
    ensures
        match count {
            Some(count) => bundle_in(components@) == Some(count as int),
            None => bundle_in(components@) is None,
        },
{
    let len: usize = components.len();
    if len < 4 {
        return None;
    }
    let name = components[len - 4].as_str();
    if str_ends_with(name, ".app") && name.unicode_len() > 4 {
        Some(len - 3)
    } else {
        None
    }
}

/// What a swap failed at.
#[derive(Debug, Clone, Copy, PartialEq, Eq, Structural)]
pub enum SwapFault {
    /// The new version has no program in it.
    NoProgram,
    MoveAside,
    PutInPlace,
    Relaunch,
}

/// What to do next while the running version is replaced by the new one that lies beside it.
#[derive(Debug, Clone, Copy, PartialEq, Eq, Structural)]
pub enum SwapStep {
    /// Remove the new version, which cannot be started.
    Discard,
    /// Remove what an earlier update left aside.
    ClearAside,
    /// Rename the running version.
    MoveAside,
    /// Give the new version the name that the running one had.
    PutInPlace,
    /// Give the running version its name back.
    PutBack,
    /// Start the new version.
    Relaunch,
    Done,
    Failed { fault: SwapFault },
}

/// The step after a step that succeeded or did not.
pub open spec fn step_after(step: SwapStep, ok: bool) -> SwapStep {
    match step {
        SwapStep::Discard => SwapStep::Failed { fault: SwapFault::NoProgram },
        SwapStep::ClearAside => SwapStep::MoveAside,
        SwapStep::MoveAside => if ok {
            SwapStep::PutInPlace
        } else {
            SwapStep::Failed { fault: SwapFault::MoveAside }
        },
        SwapStep::PutInPlace => if ok {
            SwapStep::Relaunch
        } else {
            SwapStep::PutBack
        },
        SwapStep::PutBack => SwapStep::Failed { fault: SwapFault::PutInPlace },
        SwapStep::Relaunch => if ok {
            SwapStep::Done
        } else {
            SwapStep::Failed { fault: SwapFault::Relaunch }
        },
        SwapStep::Done => SwapStep::Done,
        SwapStep::Failed { fault } => SwapStep::Failed { fault },
    }
}

/// How a swap starts, given whether the new version has its program.
pub open spec fn swap_start(program_there: bool) -> SwapStep {
    if program_there {
        SwapStep::ClearAside
    } else {
        SwapStep::Discard
    }
}

impl SwapStep {
    pub fn first() -> (step: SwapStep)
        ensures
            step == SwapStep::ClearAside,
    {
        SwapStep::ClearAside
    }

    /// What to do once a bundle is unpacked, given whether its program is there: without it the
    /// running version is not touched.
    pub fn after_unpacking(program_there: bool) -> (step: SwapStep)
        ensures
            step == swap_start(program_there),
    {
        if program_there {
            SwapStep::ClearAside
        } else {
            SwapStep::Discard
        }
    }

    /// What to do after this step, which succeeded or did not.
    pub fn next(self, ok: bool) -> (step: SwapStep)
        ensures
            step == step_after(self, ok),
    {
        match self {
            SwapStep::Discard => SwapStep::Failed { fault: SwapFault::NoProgram },
            SwapStep::ClearAside => SwapStep::MoveAside,
            SwapStep::MoveAside => {
                if ok {
                    SwapStep::PutInPlace
                } else {
                    SwapStep::Failed { fault: SwapFault::MoveAside }
                }
            },
            SwapStep::PutInPlace => {
                if ok {
                    SwapStep::Relaunch
                } else {
                    SwapStep::PutBack
                }
            },
            SwapStep::PutBack => SwapStep::Failed { fault: SwapFault::PutInPlace },
            SwapStep::Relaunch => {
                if ok {
                    SwapStep::Done
                } else {
                    SwapStep::Failed { fault: SwapFault::Relaunch }
                }
            },
            SwapStep::Done => SwapStep::Done,
            SwapStep::Failed { fault } => SwapStep::Failed { fault },
        }
    }
}

/// What is on disk under the three names that a swap works with.
pub ghost struct Installation {
    /// Under the name that the program is started by.
    pub current: Option<Seq<u8>>,
    /// Under the name that the running version is moved to.
    pub aside: Option<Seq<u8>>,
    /// Under the name that the new version was written to.
    pub fresh: Option<Seq<u8>>,
}

/// What a step leaves on disk; one that fails changes nothing.
pub open spec fn installation_after(
    installed: Installation,
    step: SwapStep,
    ok: bool,
) -> Installation {
    if !ok {
        installed
    } else {
        match step {
            SwapStep::Discard => Installation { fresh: None, ..installed },
            SwapStep::ClearAside => Installation { aside: None, ..installed },
            SwapStep::MoveAside => Installation {
                current: None,
                aside: installed.current,
                ..installed
            },
            SwapStep::PutInPlace => Installation {
                current: installed.fresh,
                fresh: None,
                ..installed
            },
            SwapStep::PutBack => Installation {
                current: installed.aside,
                aside: None,
                ..installed
            },
            _ => installed,
        }
    }
}

/// How many steps can still follow a step.
pub open spec fn steps_left(step: SwapStep) -> nat {
    match step {
        SwapStep::ClearAside => 4,
        SwapStep::MoveAside => 3,
        SwapStep::PutInPlace => 2,
        SwapStep::Discard => 1,
        SwapStep::PutBack => 1,
        SwapStep::Relaunch => 1,
        SwapStep::Done => 0,
        SwapStep::Failed { fault } => 0,
    }
}

/// What is on disk at the end of a swap that goes on with `step`, and how it ended; `ok` tells
/// which steps succeed.
pub open spec fn swapped(
    installed: Installation,
    step: SwapStep,
    ok: spec_fn(SwapStep) -> bool,
) -> (Installation, SwapStep)
    decreases steps_left(step),
{
    if step is Done || step is Failed {
        (installed, step)
    } else {
        swapped(installation_after(installed, step, ok(step)), step_after(step, ok(step)), ok)
    }
}

/// A swap that gets through leaves the new version under the program's name. One that does not
/// leaves the running version there, unless only the start of the new one failed, or the running
/// version could not be moved back. A new version without its program never gets through, and the
/// running one and what lies aside are left as they were. In no case is the running version lost.
pub proof fn law_swap_installs_or_restores(
    installed: Installation,
    program_there: bool,
    ok: spec_fn(SwapStep) -> bool,
)
    ensures
        ({
            let (left, end) = swapped(installed, swap_start(program_there), ok);
            &&& end is Done || end is Failed
            &&& end == (SwapStep::Failed { fault: SwapFault::NoProgram }) <==> !program_there
            &&& !program_there ==> {
                &&& left.current == installed.current
                &&& left.aside == installed.aside
                &&& ok(SwapStep::Discard) ==> left.fresh is None
            }
            &&& end is Done <==> program_there && ok(SwapStep::MoveAside) && ok(SwapStep::PutInPlace) && ok(
                SwapStep::Relaunch,
            )
            &&& end is Done ==> left.current == installed.fresh
            &&& end == (SwapStep::Failed { fault: SwapFault::Relaunch }) ==> left.current
                == installed.fresh
            &&& end == (SwapStep::Failed { fault: SwapFault::MoveAside }) ==> left.current
                == installed.current
            &&& end == (SwapStep::Failed { fault: SwapFault::PutInPlace }) && ok(
                SwapStep::PutBack,
            ) ==> left.current == installed.current
            &&& left.current == installed.current || left.aside == installed.current
        }),
{
    reveal_with_fuel(swapped, 6);
}

/// Of two versions one is older or they are the same, and versions that are not newer than each
/// other are the same; what is older than an older version is older.
pub proof fn law_versions_are_ordered(
    a: (u64, u64, u64),
    b: (u64, u64, u64),
    c: (u64, u64, u64),
)
    ensures
        version_le(a, b) || version_le(b, a),
        version_le(a, b) && version_le(b, a) ==> a == b,
        version_le(a, b) && version_le(b, c) ==> version_le(a, c),
{
}

/// A release is not offered to a program that runs it, and a program that has been updated is not
/// offered what it was updated from.
pub proof fn law_updates_only_go_forward(tag_name: Seq<char>, current: Seq<char>)
    ensures
        !is_newer(tag_name, tag_name),
        is_newer(tag_name, current) ==> !is_newer(current, tag_name),
{
}

/// A `v` in front of a version makes no difference, unless it keeps the white space behind it from
/// being trimmed.
pub proof fn law_leading_v_is_ignored(version: Seq<char>)
    requires
        version.len() > 0 ==> !white_space(version[0]),
    ensures
        version_of(seq!['v'] + version) == version_of(version),
{
    let tagged = seq!['v'] + version;
    assert(trim_start(tagged) == tagged);
    assert(trim_start(version) == version);
    lemma_trim_end_keeps_front(version);
    assert(trim(tagged) == seq!['v'] + trim(version));
    assert(trim(tagged).drop_first() =~= trim(version));
}

/// Trimming the end of a text leaves a character in front of it alone.
proof fn lemma_trim_end_keeps_front(s: Seq<char>)
    requires
        s.len() > 0 ==> !white_space(s[0]),
    ensures
        trim_end(seq!['v'] + s) == seq!['v'] + trim_end(s),
    decreases s.len(),
{
    let tagged = seq!['v'] + s;
    if s.len() > 0 {
        assert(tagged.last() == s.last());
        assert(tagged.drop_last() =~= seq!['v'] + s.drop_last());
        if white_space(s.last()) {
            lemma_trim_end_keeps_front(s.drop_last());
        }
    } else {
        assert(tagged =~= seq!['v']);
    }
}

/// Versions are ordered by their numbers: the first number in which they differ decides, and the
/// smaller one is the older version.
pub proof fn law_versions_are_ordered_by_their_numbers(
    a: (u64, u64, u64),
    b: (u64, u64, u64),
)
    ensures
        a.0 < b.0 ==> version_le(a, b) && !version_le(b, a),
        a.0 == b.0 && a.1 < b.1 ==> version_le(a, b) && !version_le(b, a),
        a.0 == b.0 && a.1 == b.1 && a.2 < b.2 ==> version_le(a, b) && !version_le(b, a),
        a == b ==> version_le(a, b),
{
}

/// A release is offered exactly if its numbers are those of a later version than the one that runs.
pub proof fn law_offered_releases_have_larger_numbers(tag_name: Seq<char>, current: Seq<char>)
    ensures
        ({
            let (new, old_) = (version_of(tag_name), version_of(current));
            is_newer(tag_name, current) <==> new.0 > old_.0 || (new.0 == old_.0 && new.1 > old_.1)
                || (new.0 == old_.0 && new.1 == old_.1 && new.2 > old_.2)
        }),
{
}

/// The digits of a number: there is one, all of them are digits, and they denote the number.
proof fn lemma_decimal(n: nat)
    ensures
        decimal(n).len() > 0,
        forall|i: int|
            0 <= i < decimal(n).len() ==> 48 <= (#[trigger] decimal(n)[i]) as u32
                && decimal(n)[i] as u32 <= 57,
        digits_value(decimal(n)) == Some(n),
    decreases n,
{
    reveal_strlit("0123456789");
    let text = decimal(n);
    if n < 10 {
        assert(text.drop_last() =~= Seq::empty());
        assert(digit_value(text.last()) == Some(n));
    } else {
        lemma_decimal(n / 10);
        assert(text.drop_last() =~= decimal(n / 10));
        assert(text.last() == digit_char(n % 10));
        assert(digit_value(text.last()) == Some(n % 10));
    }
}

/// A number that is written out is read as that number, with a plus sign before it too; one that
/// does not fit in 64 bits is read as zero.
pub proof fn law_version_part_is_the_number(n: nat)
    ensures
        version_part(decimal(n)) == (if n <= u64::MAX {
            n as u64
        } else {
            0
        }),
        version_part(seq!['+'] + decimal(n)) == version_part(decimal(n)),
        version_part(Seq::<char>::empty()) == 0,
{
    lemma_decimal(n);
    assert(decimal(n)[0] as u32 >= 48);
    assert((seq!['+'] + decimal(n)).drop_first() =~= decimal(n));
}

/// A part of a version that holds anything but digits, a plus sign at its start apart, is read as
/// zero.
pub proof fn law_odd_version_parts_are_zero(part: Seq<char>, i: int)
    requires
        0 <= i < part.len(),
        (part[i] as u32) < 48 || part[i] as u32 > 57,
        i > 0 || part[0] != '+',
    ensures
        version_part(part) == 0,
{
    let digits = unsigned_part(part);
    let at = if part[0] == '+' {
        i - 1
    } else {
        i
    };
    assert(digits[at] == part[i]);
    lemma_no_digit(digits, at);
}

proof fn lemma_no_digit(s: Seq<char>, i: int)
    requires
        0 <= i < s.len(),
        (s[i] as u32) < 48 || s[i] as u32 > 57,
    ensures
        digits_value(s) is None,
    decreases s.len(),
{
    if i < s.len() - 1 {
        lemma_no_digit(s.drop_last(), i);
    }
}

/// Zeros in front of a number make no difference.
pub proof fn law_leading_zeros_are_ignored(part: Seq<char>)
    requires
        part.len() > 0,
        part[0] != '+',
    ensures
        version_part(seq!['0'] + part) == version_part(part),
{
    lemma_leading_zero(part);
}

proof fn lemma_leading_zero(s: Seq<char>)
    ensures
        digits_value(seq!['0'] + s) == digits_value(s),
    decreases s.len(),
{
    let padded = seq!['0'] + s;
    if s.len() > 0 {
        lemma_leading_zero(s.drop_last());
        assert(padded.drop_last() =~= seq!['0'] + s.drop_last());
        assert(padded.last() == s.last());
    } else {
        assert(padded.drop_last() =~= Seq::empty());
        assert(digits_value(padded.drop_last()) == Some(0nat));
        assert(digit_value(padded.last()) == Some(0nat));
        assert(digits_value(s) == Some(0nat));
    }
}

/// The numbers of a version are what stands between its dots, the first three of them; where there
/// are fewer, the rest are zero.
pub proof fn law_version_is_read_part_by_part(
    major: Seq<char>,
    minor: Seq<char>,
    patch: Seq<char>,
    rest: Seq<char>,
)
    requires
        major.len() > 0,
        major[0] != 'v',
        !white_space(major[0]),
        !major.contains('.'),
        !minor.contains('.'),
        !patch.contains('.'),
        !white_space(major.last()),
        minor.len() > 0 ==> !white_space(minor.last()),
        patch.len() > 0 ==> !white_space(patch.last()),
        rest.len() > 0 ==> !white_space(rest.last()),
    ensures
        version_of(major) == (version_part(major), 0u64, 0u64),
        version_of(major + seq!['.'] + minor) == (version_part(major), version_part(minor), 0u64),
        version_of(major + seq!['.'] + (minor + seq!['.'] + patch)) == (
            version_part(major),
            version_part(minor),
            version_part(patch),
        ),
        version_of(major + seq!['.'] + (minor + seq!['.'] + (patch + seq!['.'] + rest))) == (
            version_part(major),
            version_part(minor),
            version_part(patch),
        ),
{
    law_split_at_a_character(major, '.', minor);
    law_split_at_a_character(major, '.', minor + seq!['.'] + patch);
    law_split_at_a_character(major, '.', minor + seq!['.'] + (patch + seq!['.'] + rest));
    law_split_at_a_character(minor, '.', patch);
    law_split_at_a_character(minor, '.', patch + seq!['.'] + rest);
    law_split_at_a_character(patch, '.', rest);
    lemma_nothing_to_strip(major);
    lemma_nothing_to_strip(major + seq!['.'] + minor);
    lemma_nothing_to_strip(major + seq!['.'] + (minor + seq!['.'] + patch));
    lemma_nothing_to_strip(major + seq!['.'] + (minor + seq!['.'] + (patch + seq!['.'] + rest)));
}

/// A version without white space around it and without a `v` in front is read as it stands.
proof fn lemma_nothing_to_strip(s: Seq<char>)
    requires
        s.len() > 0,
        s[0] != 'v',
        !white_space(s[0]),
        !white_space(s.last()),
    ensures
        strip_leading(trim(s), 'v') == s,
{
    let nothing = Seq::<char>::empty();
    law_trim_leaves_what_is_between(nothing, s, nothing);
    assert(nothing + s + nothing =~= s);
    law_strip_leading(s, 'v');
}

/// A version that is written out as its three numbers is read as these numbers.
pub proof fn law_written_versions_are_read_back(major: u64, minor: u64, patch: u64)
    ensures
        version_of(
            decimal(major as nat) + seq!['.'] + (decimal(minor as nat) + seq!['.'] + decimal(
                patch as nat,
            )),
        ) == (major, minor, patch),
{
    let (a, b, c) = (decimal(major as nat), decimal(minor as nat), decimal(patch as nat));
    lemma_decimal(major as nat);
    lemma_decimal(minor as nat);
    lemma_decimal(patch as nat);
    assert(!a.contains('.') && !b.contains('.') && !c.contains('.'));
    assert(a[0] as u32 >= 48 && a[0] as u32 <= 57);
    assert(a.last() as u32 >= 48 && b.last() as u32 >= 48 && c.last() as u32 >= 48);
    assert(a.last() as u32 <= 57 && b.last() as u32 <= 57 && c.last() as u32 <= 57);
    law_version_is_read_part_by_part(a, b, c, Seq::empty());
    law_version_part_is_the_number(major as nat);
    law_version_part_is_the_number(minor as nat);
    law_version_part_is_the_number(patch as nat);
}

/// White space around a version makes no difference.
pub proof fn law_white_space_around_a_version(
    before: Seq<char>,
    version: Seq<char>,
    behind: Seq<char>,
)
    requires
        version.len() > 0,
        !white_space(version[0]),
        !white_space(version.last()),
        forall|i: int| 0 <= i < before.len() ==> white_space(#[trigger] before[i]),
        forall|i: int| 0 <= i < behind.len() ==> white_space(#[trigger] behind[i]),
    ensures
        version_of(before + version + behind) == version_of(version),
{
    let nothing = Seq::<char>::empty();
    law_trim_leaves_what_is_between(before, version, behind);
    law_trim_leaves_what_is_between(nothing, version, nothing);
    assert(nothing + version + nothing =~= version);
}

/// Which file of a release is taken: the first that is named as the platform asks.
pub proof fn law_first_asset(assets: Seq<Asset>, platform: Platform, at: int, k: int)
    requires
        first_asset_at(assets, asset_for(platform), at),
    ensures
        0 <= at < assets.len(),
        platform is Windows ==> assets[at].name@ == "SoundTransfer-windows.zip"@,
        platform is MacOs ==> assets[at].name@ == "SoundTransfer-macos.zip"@,
        platform is Other ==> assets[at].name@ == ""@,
        0 <= k < at ==> assets[k].name@ != assets[at].name@,
{
}

/// Which entry of an archive is the program: the first one whose name ends in `st.exe`, and every
/// one before it can be read. An entry that cannot be read before any program spoils the archive,
/// and without either there is no program.
pub proof fn law_program_is_the_first_of_its_name(
    entries: Seq<Option<(Seq<char>, Option<u32>)>>,
    at: int,
)
    requires
        0 <= at <= entries.len(),
        forall|k: int|
            0 <= k < at ==> ((#[trigger] entries[k]) matches Some(entry)
                && !"st.exe"@.is_suffix_of(entry.0)),
    ensures
        at == entries.len() ==> exe_at(entries, 0) == Err::<nat, UpdateError>(UpdateError::NoExe),
        at < entries.len() && entries[at] is None ==> exe_at(entries, 0) == Err::<
            nat,
            UpdateError,
        >(UpdateError::BadArchive),
        at < entries.len() ==> (entries[at] matches Some(entry) ==> ("st.exe"@.is_suffix_of(entry.0)
            ==> exe_at(entries, 0) == Ok::<nat, UpdateError>(at as nat))),
{
    lemma_exe_at(entries, at, 0);
}

proof fn lemma_exe_at(entries: Seq<Option<(Seq<char>, Option<u32>)>>, at: int, from: int)
    requires
        0 <= from <= at <= entries.len(),
        forall|k: int|
            0 <= k < at ==> ((#[trigger] entries[k]) matches Some(entry)
                && !"st.exe"@.is_suffix_of(entry.0)),
    ensures
        exe_at(entries, from as nat) == exe_at(entries, at as nat),
    decreases at - from,
{
    if from < at {
        assert(entries[from] is Some);
        lemma_exe_at(entries, at, from + 1);
    }
}

/// What comes out of an archive: the whole contents of the first entry whose name ends in `st.exe`,
/// with every entry before it readable; and which error there is if they cannot be had.
pub proof fn law_program_comes_out_whole(
    data: Seq<u8>,
    at: usize,
    outcome: Result<Vec<u8>, UpdateError>,
)
    requires
        same_bytes(outcome, exe_in(data)),
        forall|k: usize|
            k < at ==> ((#[trigger] archive_entry(data, k)) matches Some(entry)
                && !"st.exe"@.is_suffix_of(entry.0)),
    ensures
        archive_len(data) is None ==> (outcome matches Err(error) && error is BadArchive),
        archive_len(data) == Some(at) ==> (outcome matches Err(error) && error is NoExe),
        archive_len(data) matches Some(len) ==> (at < len ==> {
            &&& archive_entry(data, at) is None ==> (outcome matches Err(error) && error
                is BadArchive)
            &&& archive_entry(data, at) matches Some(entry) ==> ("st.exe"@.is_suffix_of(entry.0)
                ==> match archive_contents(data, at) {
                Some(bytes) => outcome matches Ok(exe) && exe@ == bytes,
                None => outcome matches Err(error) && error is BadArchive,
            })
        }),
{
    match archive_len(data) {
        None => {},
        Some(len) => {
            if at <= len {
                let entries = archive_entries(data, len);
                assert forall|k: int| 0 <= k < at implies ((#[trigger] entries[k]) matches Some(
                    entry,
                ) && !"st.exe"@.is_suffix_of(entry.0)) by {
                    assert(archive_entry(data, k as usize) is Some);
                }
                law_program_is_the_first_of_its_name(entries, at as int);
            }
        },
    }
}

/// What is known of an entry of an archive is its name and its permissions.
pub proof fn law_entries_are_seen_as_they_are(entries: Seq<Option<ZipEntry>>, i: int)
    requires
        0 <= i < entries.len(),
    ensures
        entries_view(entries).len() == entries.len(),
        entries_view(entries)[i] is Some <==> entries[i] is Some,
        entries[i] matches Some(entry) ==> entries_view(entries)[i] == Some(
            (entry.name@, entry.unix_mode),
        ),
{
}

/// What is read of an entry is all of it, or the archive is bad.
pub proof fn law_outcomes_are_whole(
    outcome: Result<Vec<u8>, UpdateError>,
    expected: Result<Seq<u8>, UpdateError>,
)
    requires
        same_bytes(outcome, expected),
    ensures
        expected matches Ok(bytes) ==> (outcome matches Ok(got) && got@ == bytes),
        expected matches Err(reason) ==> (outcome matches Err(error) && error == reason),
{
}

/// What is done with an entry of a bundle's archive: whatever stands below `SoundTransfer.app/` is
/// unpacked to the same place below the new bundle, a directory as a directory and a file with its
/// permissions. The bundle itself and everything else is passed over.
pub proof fn law_bundle_is_unpacked_in_place(
    inside: Seq<char>,
    name: Seq<char>,
    is_dir: bool,
    unix_mode: Option<u32>,
    step: BundleStep,
)
    requires
        step_for(step, name, is_dir, unix_mode),
    ensures
        name == "SoundTransfer.app/"@ + inside && inside.len() > 0 && is_dir ==> (
        step matches BundleStep::MakeDir { path } && path@ == inside),
        name == "SoundTransfer.app/"@ + inside && inside.len() > 0 && !is_dir ==> (
        step matches BundleStep::WriteFile { path, unix_mode: mode } && path@ == inside && mode
            == unix_mode),
        name == "SoundTransfer.app/"@ ==> step is Skip,
        !"SoundTransfer.app/"@.is_prefix_of(name) ==> step is Skip,
{
    let bundle = "SoundTransfer.app/"@;
    if name == bundle + inside {
        assert(name.subrange(0, bundle.len() as int) =~= bundle);
        assert(name.skip(bundle.len() as int) =~= inside);
    }
}

/// How an update is installed: on Windows by the program in the archive, on macOS by all entries of
/// a readable archive, and nowhere else.
pub proof fn law_install_plans(
    plan: Result<InstallPlan, UpdateError>,
    platform: Platform,
    data: Seq<u8>,
)
    requires
        plans(plan, platform, data),
    ensures
        platform is Windows ==> match exe_in(data) {
            Ok(bytes) => plan matches Ok(InstallPlan::ReplaceExe { exe }) && exe@ == bytes,
            Err(reason) => plan matches Err(error) && error == reason,
        },
        platform is MacOs ==> match archive_len(data) {
            Some(len) => plan matches Ok(InstallPlan::UnpackBundle { entries }) && entries == len,
            None => plan matches Err(error) && error is BadArchive,
        },
        platform is Other ==> (plan matches Err(error) && error is Unsupported),
{
}

/// Which program is in a bundle: one that lies three levels below a directory with the extension
/// `app`, and that directory ends the bundle's path.
pub proof fn law_bundles_are_three_levels_up(components: Seq<String>)
    ensures
        components.len() < 4 ==> bundle_in(components) is None,
        components.len() >= 4 ==> {
            let name = components[components.len() - 4]@;
            let is_bundle = ".app"@.is_suffix_of(name) && name.len() > 4;
            &&& is_bundle ==> bundle_in(components) == Some(components.len() - 3)
            &&& !is_bundle ==> bundle_in(components) is None
        },
{
}

/// The steps of a swap in their order. To clear what lies aside and to move back may fail without
/// making a difference; any other step that fails ends the swap, after moving back if the running
/// version had been moved.
pub proof fn law_swap_goes_step_by_step(ok: bool)
    ensures
        swap_start(true) == SwapStep::ClearAside,
        swap_start(false) == SwapStep::Discard,
        step_after(SwapStep::ClearAside, ok) == SwapStep::MoveAside,
        step_after(SwapStep::MoveAside, true) == SwapStep::PutInPlace,
        step_after(SwapStep::PutInPlace, true) == SwapStep::Relaunch,
        step_after(SwapStep::Relaunch, true) == SwapStep::Done,
        step_after(SwapStep::MoveAside, false) == (SwapStep::Failed {
            fault: SwapFault::MoveAside,
        }),
        step_after(SwapStep::PutInPlace, false) == SwapStep::PutBack,
        step_after(SwapStep::PutBack, ok) == (SwapStep::Failed { fault: SwapFault::PutInPlace }),
        step_after(SwapStep::Relaunch, false) == (SwapStep::Failed { fault: SwapFault::Relaunch }),
        step_after(SwapStep::Discard, ok) == (SwapStep::Failed { fault: SwapFault::NoProgram }),
        step_after(SwapStep::Done, ok) == SwapStep::Done,
        forall|fault: SwapFault| #[trigger]
            step_after(SwapStep::Failed { fault }, ok) == (SwapStep::Failed { fault }),
{
}

} // verus!
