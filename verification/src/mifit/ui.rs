//! The page of the key reader.
use vstd::prelude::*;
use vstd::string::*;

use crate::element::{Element, ElementType, ElementView, Style, UiEvent};
use crate::mifit::extractor::{self, DeviceInfo, Platform};
use crate::text::{self, str_eq};

verus! {

pub const PICK_ANDROID_ZIP_EVENT: &'static str = "pick_android_zip";

pub const PICK_IOS_SQLITE_EVENT: &'static str = "pick_ios_sqlite";

pub const CLEAR_RESULT_EVENT: &'static str = "clear_result";

pub const TAB_EXTRACT_EVENT: &'static str = "tab_extract";

pub const TAB_TUTORIAL_EVENT: &'static str = "tab_tutorial";

pub const KEY_INPUT_LOCK_PREFIX: &'static str = "lock_key_";

pub const COPY_ENCRYPT_KEY_EVENT_PREFIX: &'static str = "copy_encrypt_key_";

pub const COLOR_BG_CARD: &'static str = "#1C1C1E";

pub const COLOR_BG_TAB_WRAP: &'static str = "#242426";

pub const COLOR_BG_TAB_ACTIVE: &'static str = "#3A3A3C";

pub const COLOR_BG_TAB_IDLE: &'static str = "transparent";

pub const COLOR_BG_BADGE: &'static str = "#2C2C2E";

pub const COLOR_BG_INPUT: &'static str = "#000000";

pub const COLOR_BG_BTN_PRIMARY: &'static str = "#0A84FF";

pub const COLOR_TEXT_BTN_PRIMARY: &'static str = "#FFFFFF";

pub const COLOR_BG_BTN_SECONDARY: &'static str = "#2C2C2E";

pub const COLOR_TEXT_BTN_SECONDARY: &'static str = "#FFFFFF";

pub const COLOR_BG_BTN_DANGER: &'static str = "#3A1A1E";

pub const COLOR_TEXT_BTN_DANGER: &'static str = "#FF453A";

pub const COLOR_BORDER_SOFT: &'static str = "#38383A";

/// A border that is not drawn.
pub const NO_BORDER: &'static str = "transparent";

pub const COLOR_TEXT_PRIMARY: &'static str = "#FFFFFF";

pub const COLOR_TEXT_SECONDARY: &'static str = "#98989D";

pub const COLOR_TEXT_MUTED: &'static str = "#636366";

pub const COLOR_TEXT_SUCCESS: &'static str = "#32D74B";

pub const COLOR_TEXT_WARN: &'static str = "#FFD60A";

pub const COLOR_TEXT_DANGER: &'static str = "#FF453A";

pub const SMOOTH: &'static str = "all 0.2s ease";

#[derive(Clone, Copy, Debug, Eq, PartialEq, Structural)]
pub enum UiTab {
    Extract,
    Tutorial,
}

pub struct UiState {
    pub root_element_id: Option<String>,
    pub status: String,
    pub devices: Vec<DeviceInfo>,
    pub source_file: Option<String>,
    pub active_tab: UiTab,
}

impl Default for UiState {
    fn default() -> (r: Self)
        ensures
            r.root_element_id is None,
            r.status@ == "请选择 Android zip 或 iOS sqlite 文件"@,
            r.devices@.len() == 0,
            r.source_file is None,
            r.active_tab == UiTab::Extract,
    {
        UiState {
            root_element_id: None,
            status: "请选择 Android zip 或 iOS sqlite 文件".to_owned(),
            devices: Vec::new(),
            source_file: None,
            active_tab: UiTab::Extract,
        }
    }
}

// ---------------------------------------------------------------- events

/// What the host is to do after an event.
pub enum UiEffect {
    Ignore,
    /// Render the page.
    Render,
    /// Render the page, let the user pick a file of a platform, and report to
    /// [`finish_pick`].
    Pick(Platform),
    /// Put a key on the clipboard, and report to [`copied`] with the name of the
    /// device.
    Copy { name: String, key: String },
}

/// The device that a copy event names.
pub open spec fn copy_index(event: Seq<char>) -> Option<nat> {
    if text::begins_with(event, COPY_ENCRYPT_KEY_EVENT_PREFIX@) {
        text::parsed_uint(
            event.skip(COPY_ENCRYPT_KEY_EVENT_PREFIX@.len() as int),
            usize::MAX as nat,
        )
    } else {
        None
    }
}

pub fn copy_encrypt_key_event_index(event: &str) -> (r: Option<usize>)
    ensures
        match r {
            Some(i) => copy_index(event@) == Some(i as nat),
            None => copy_index(event@) is None,
        },
{
    match text::strip_prefix(event, COPY_ENCRYPT_KEY_EVENT_PREFIX) {
        Some(rest) => match text::parse_uint(rest.as_str(), usize::MAX as u64) {
            Some(n) => Some(n as usize),
            None => None,
        },
        None => None,
    }
}

/// The status while a file of a platform is read.
pub open spec fn picking_status(platform: Platform) -> Seq<char> {
    "正在选择并处理 "@ + platform.label() + " 文件..."@
}

fn start_pick(s: &mut UiState, platform: Platform)
    ensures
        final(s).status@ == picking_status(platform),
        *final(s) == (UiState {
            status: final(s).status,
            active_tab: UiTab::Extract,
            ..*old(s)
        }),
{
    s.status = text::cat3("正在选择并处理 ", platform.as_label(), " 文件...");
    s.active_tab = UiTab::Extract;
}

/// Whether a click was handled as its event asks.
pub open spec fn click_handled(before: UiState, after: UiState, event: Seq<char>, effect: UiEffect) -> bool {
    if event == PICK_ANDROID_ZIP_EVENT@ {
        &&& effect == UiEffect::Pick(Platform::Android)
        &&& after.status@ == picking_status(Platform::Android)
        &&& after == (UiState { status: after.status, active_tab: UiTab::Extract, ..before })
    } else if event == PICK_IOS_SQLITE_EVENT@ {
        &&& effect == UiEffect::Pick(Platform::Ios)
        &&& after.status@ == picking_status(Platform::Ios)
        &&& after == (UiState { status: after.status, active_tab: UiTab::Extract, ..before })
    } else if event == TAB_EXTRACT_EVENT@ {
        effect is Render && after == (UiState { active_tab: UiTab::Extract, ..before })
    } else if event == TAB_TUTORIAL_EVENT@ {
        effect is Render && after == (UiState { active_tab: UiTab::Tutorial, ..before })
    } else if event == CLEAR_RESULT_EVENT@ {
        &&& effect is Render
        &&& after.status@ == "已清空结果，请重新选择文件"@
        &&& after.devices@.len() == 0
        &&& after.source_file is None
        &&& after.active_tab == UiTab::Extract
        &&& after.root_element_id == before.root_element_id
    } else {
        match copy_index(event) {
            Some(i) => if i < before.devices@.len() {
                &&& effect matches UiEffect::Copy { name, key }
                &&& name == before.devices@[i as int].name
                &&& key == before.devices@[i as int].encrypt_key
                &&& after == before
            } else {
                &&& effect is Render
                &&& after.status@ == "复制失败：设备结果不存在"@
                &&& after == (UiState { status: after.status, ..before })
            },
            None => effect is Ignore && after == before,
        }
    }
}

/// Handles an event of the page.
pub fn ui_event_processor(s: &mut UiState, evtype: UiEvent, event: &str) -> (effect: UiEffect)
    ensures
        match evtype {
            UiEvent::Click => click_handled(*old(s), *final(s), event@, effect),
            UiEvent::Input | UiEvent::Change => *final(s) == *old(s) && if text::begins_with(
                event@,
                KEY_INPUT_LOCK_PREFIX@,
            ) {
                effect is Render
            } else {
                effect is Ignore
            },
            UiEvent::Other => effect is Ignore && *final(s) == *old(s),
        },
{
    match evtype {
        UiEvent::Click => {
            if str_eq(event, PICK_ANDROID_ZIP_EVENT) {
                start_pick(s, Platform::Android);
                UiEffect::Pick(Platform::Android)
            } else if str_eq(event, PICK_IOS_SQLITE_EVENT) {
                start_pick(s, Platform::Ios);
                UiEffect::Pick(Platform::Ios)
            } else if str_eq(event, TAB_EXTRACT_EVENT) {
                s.active_tab = UiTab::Extract;
                UiEffect::Render
            } else if str_eq(event, TAB_TUTORIAL_EVENT) {
                s.active_tab = UiTab::Tutorial;
                UiEffect::Render
            } else if str_eq(event, CLEAR_RESULT_EVENT) {
                s.status = "已清空结果，请重新选择文件".to_owned();
                s.devices = Vec::new();
                s.source_file = None;
                s.active_tab = UiTab::Extract;
                UiEffect::Render
            } else {
                match copy_encrypt_key_event_index(event) {
                    Some(i) => if i < s.devices.len() {
                        UiEffect::Copy {
                            name: s.devices[i].name.clone(),
                            key: s.devices[i].encrypt_key.clone(),
                        }
                    } else {
                        s.status = "复制失败：设备结果不存在".to_owned();
                        UiEffect::Render
                    },
                    None => UiEffect::Ignore,
                }
            }
        },
        UiEvent::Input | UiEvent::Change => if text::starts_with(event, KEY_INPUT_LOCK_PREFIX) {
            UiEffect::Render
        } else {
            UiEffect::Ignore
        },
        UiEvent::Other => UiEffect::Ignore,
    }
}

/// What reading a picked file gave.
pub struct ExtractionOutcome {
    pub source_file: String,
    pub detail: Option<String>,
    pub devices: Vec<DeviceInfo>,
}

/// The status after a file was read.
pub open spec fn read_status(platform: Platform, count: nat, detail: Option<Seq<char>>) -> Seq<char> {
    let head = "解析完成："@ + platform.label() + " 设备 "@ + text::decimal(count) + " 台"@;
    match detail {
        Some(d) => head + "（"@ + d + "）"@,
        None => head,
    }
}

/// Takes what reading a picked file gave, or why it failed.
pub fn finish_pick(s: &mut UiState, platform: Platform, outcome: Result<ExtractionOutcome, String>)
    ensures
        match outcome {
            Ok(o) => {
                &&& final(s).status@ == read_status(
                    platform,
                    o.devices@.len(),
                    text::opt_text(o.detail),
                )
                &&& *final(s) == (UiState {
                    status: final(s).status,
                    source_file: Some(o.source_file),
                    devices: o.devices,
                    ..*old(s)
                })
            },
            Err(e) => {
                &&& final(s).status@ == "处理失败："@ + e@
                &&& *final(s) == (UiState { status: final(s).status, ..*old(s) })
            },
        },
{
    match outcome {
        Ok(o) => {
            let n = text::u64_text(o.devices.len() as u64);
            let mut m = text::cat3("解析完成：", platform.as_label(), " 设备 ");
            m.append(n.as_str());
            m.append(" 台");
            if let Some(d) = &o.detail {
                m.append("（");
                m.append(d.as_str());
                m.append("）");
            }
            s.status = m;
            s.source_file = Some(o.source_file);
            s.devices = o.devices;
        },
        Err(e) => {
            s.status = text::cat("处理失败：", e.as_str());
        },
    }
}

/// Notes whether the key of a device was put on the clipboard.
pub fn copied(s: &mut UiState, name: &str, ok: bool)
    ensures
        final(s).status@ == if ok {
            "已复制 "@ + name@ + " 的 AuthKey"@
        } else {
            "复制失败：剪贴板权限未授权或系统剪贴板不可用"@
        },
        *final(s) == (UiState { status: final(s).status, ..*old(s) }),
{
    s.status = if ok {
        text::cat3("已复制 ", name, " 的 AuthKey")
    } else {
        "复制失败：剪贴板权限未授权或系统剪贴板不可用".to_owned()
    };
}

// ---------------------------------------------------------------- picking

/// The name of the directory for one reading.
pub fn session_name(platform: Platform, timestamp_ms: u128) -> (r: String)
    ensures
        r@ == (match platform {
            Platform::Android => "android"@,
            Platform::Ios => "ios"@,
        }) + "_"@ + text::decimal(timestamp_ms as nat),
{
    let head = match platform {
        Platform::Android => "android",
        Platform::Ios => "ios",
    };
    let t = text::u128_text(timestamp_ms);
    text::cat3(head, "_", t.as_str())
}

/// The name of the file that the user picked, or that there is none.
pub fn picked_name(name: &str) -> (r: Result<String, String>)
    ensures
        match r {
            Ok(n) => n@ == text::trimmed(name@) && n@.len() > 0,
            Err(e) => text::trimmed(name@).len() == 0 && e@ == "未选择文件"@,
        },
{
    let n = text::trim(name);
    if n.as_str().is_empty() {
        Err("未选择文件".to_owned())
    } else {
        Ok(n)
    }
}

/// Whether a file extension is one of a platform, whatever its case.
pub open spec fn expected_extension(platform: Platform, ext: Option<Seq<char>>) -> bool {
    match ext {
        Some(e) => match platform {
            Platform::Android => text::lowered(e) == text::lowered("zip"@),
            Platform::Ios => text::lowered(e) == text::lowered("sqlite"@) || text::lowered(e)
                == text::lowered("db"@),
        },
        None => false,
    }
}

fn is_expected(platform: Platform, ext: &Option<String>) -> (r: bool)
    ensures
        r == expected_extension(platform, text::opt_text(*ext)),
{
    match ext {
        Some(e) => match platform {
            Platform::Android => text::eq_ignore_case(e.as_str(), "zip"),
            Platform::Ios => text::eq_ignore_case(e.as_str(), "sqlite") || text::eq_ignore_case(
                e.as_str(),
                "db",
            ),
        },
        None => false,
    }
}

/// A file that may be the picked one.
pub struct FoundFile {
    pub extension: Option<String>,
    /// When it was last written, counted from 1970 on; zero where that is unknown.
    pub modified: i128,
}

pub open spec fn suits(files: Seq<FoundFile>, platform: Platform, i: int) -> bool {
    0 <= i < files.len() && expected_extension(platform, text::opt_text(files[i].extension))
}

/// Chooses among the copied files, where the picked name leads to none: the
/// newest one of the platform, among equals the first.
pub fn newest_file(files: &Vec<FoundFile>, platform: Platform) -> (r: Option<usize>)
    ensures
        match r {
            Some(b) => is_newest(files@, platform, b as int),
            None => forall|j: int| !#[trigger] suits(files@, platform, j),
        },
{
    let mut best: Option<usize> = None;
    let mut i: usize = 0;
    while i < files.len()
        invariant
            i <= files@.len(),
            match best {
                Some(b) => b < i && suits(files@, platform, b as int) && forall|j: int|
                    j < i && #[trigger] suits(files@, platform, j) ==> files@[j].modified
                        <= files@[b as int].modified && (j < b ==> files@[j].modified
                        < files@[b as int].modified),
                None => forall|j: int| j < i ==> !#[trigger] suits(files@, platform, j),
            },
        decreases files.len() - i,
    {
        if is_expected(platform, &files[i].extension) {
            assert(suits(files@, platform, i as int));
            match best {
                Some(b) => {
                    if files[i].modified > files[b].modified {
                        best = Some(i);
                    }
                },
                None => {
                    best = Some(i);
                },
            }
        }
        i = i + 1;
    }
    best
}

/// The extensions that are offered for picking; none stands for any.
pub fn picker_extensions(platform: Platform) -> (r: Vec<&'static str>)
    ensures
        r@ == (match platform {
            Platform::Android => seq!["zip"],
            Platform::Ios => Seq::<&'static str>::empty(),
        }),
{
    match platform {
        Platform::Android => vec!["zip"],
        Platform::Ios => Vec::new(),
    }
}

/// Where a picked file is: under one of the paths that its name may stand for, or
/// among the copied files.
#[derive(Clone, Copy, Debug, PartialEq, Eq, Structural)]
pub enum PickedFile {
    Named(usize),
    Copied(usize),
}

/// Whether a file is the newest one of the platform, among equals the first.
pub open spec fn is_newest(files: Seq<FoundFile>, platform: Platform, b: int) -> bool {
    suits(files, platform, b) && forall|j: int| #[trigger]
        suits(files, platform, j) ==> files[j].modified <= files[b].modified && (j < b
            ==> files[j].modified < files[b].modified)
}

/// Finds a picked file: the first of its paths that exists, or else the newest of
/// the copied files.
pub fn resolve_picked_file_path(
    name: &str,
    exists: &Vec<bool>,
    files: &Vec<FoundFile>,
    platform: Platform,
) -> (r: Result<PickedFile, String>)
    ensures
        match r {
            Ok(PickedFile::Named(i)) => i < exists@.len() && exists@[i as int] && forall|j: int|
                0 <= j < i ==> !exists@[j],
            Ok(PickedFile::Copied(b)) => !exists@.contains(true) && is_newest(
                files@,
                platform,
                b as int,
            ),
            Err(e) => {
                &&& !exists@.contains(true)
                &&& forall|j: int| !#[trigger] suits(files@, platform, j)
                &&& e@ == "未在 copy-to 目录中找到可读取文件（returned name: "@ + name@ + "）"@
            },
        },
{
    let mut i: usize = 0;
    while i < exists.len()
        invariant
            i <= exists@.len(),
            forall|j: int| 0 <= j < i ==> !exists@[j],
        decreases exists.len() - i,
    {
        if exists[i] {
            return Ok(PickedFile::Named(i));
        }
        i = i + 1;
    }
    match newest_file(files, platform) {
        Some(b) => Ok(PickedFile::Copied(b)),
        None => Err(text::cat3("未在 copy-to 目录中找到可读取文件（returned name: ", name, "）")),
    }
}

/// What was read from a package: the devices in its log.
pub fn android_outcome(source_file: String, parsed: Result<(Vec<DeviceInfo>, String), String>) -> (r:
    Result<ExtractionOutcome, String>)
    ensures
        match parsed {
            Ok((devices, log_path)) => r matches Ok(o) && o.source_file == source_file && o.devices
                == devices && text::opt_text(o.detail) == Some("日志 "@ + log_path@),
            Err(e) => r matches Err(m) && m == e,
        },
{
    match parsed {
        Ok((devices, log_path)) => Ok(
            ExtractionOutcome {
                source_file,
                detail: Some(text::cat("日志 ", log_path.as_str())),
                devices,
            },
        ),
        Err(e) => Err(e),
    }
}

// ---------------------------------------------------------------- parts

pub open spec fn single_tab_view(label: Seq<char>, event_id: Seq<char>, active: bool, first: bool) -> ElementView {
    let bg_color = if active {
        COLOR_BG_TAB_ACTIVE
    } else {
        COLOR_BG_TAB_IDLE
    };
    let label_color = if active {
        COLOR_TEXT_PRIMARY
    } else {
        COLOR_TEXT_MUTED
    };
    let tab = ElementView::new(ElementType::Button, label)
        .style(Style::WithoutDefaults)
        .on(UiEvent::Click, event_id)
        .style(Style::Bg(bg_color))
        .style(Style::Radius(8))
        .style(Style::PaddingTop(8))
        .style(Style::PaddingBottom(8))
        .style(Style::PaddingLeft(20))
        .style(Style::PaddingRight(20))
        .style(Style::Size(13))
        .style(Style::TextColor(label_color))
        .style(Style::Transition(SMOOTH));
    if first {
        tab.style(Style::MarginRight(4))
    } else {
        tab
    }
}

fn single_tab(label: &str, event_id: &str, active: bool, first: bool) -> (r: Element)
    ensures
        r@ == single_tab_view(label@, event_id@, active, first),
{
    let bg_color = if active {
        COLOR_BG_TAB_ACTIVE
    } else {
        COLOR_BG_TAB_IDLE
    };
    let label_color = if active {
        COLOR_TEXT_PRIMARY
    } else {
        COLOR_TEXT_MUTED
    };
    let tab = Element::new(ElementType::Button, label)
        .style(Style::WithoutDefaults)
        .on(UiEvent::Click, event_id)
        .style(Style::Bg(bg_color))
        .style(Style::Radius(8))
        .style(Style::PaddingTop(8))
        .style(Style::PaddingBottom(8))
        .style(Style::PaddingLeft(20))
        .style(Style::PaddingRight(20))
        .style(Style::Size(13))
        .style(Style::TextColor(label_color))
        .style(Style::Transition(SMOOTH));
    if first {
        tab.style(Style::MarginRight(4))
    } else {
        tab
    }
}

/// The two tabs of the page.
pub open spec fn tab_bar_view(active_tab: UiTab) -> ElementView {
    let extract_tab = single_tab_view("提取工具"@, TAB_EXTRACT_EVENT@, active_tab == UiTab::Extract, true);
    let tutorial_tab = single_tab_view("使用教程"@, TAB_TUTORIAL_EVENT@, active_tab == UiTab::Tutorial, false);
    let tab_wrap = ElementView::bare(ElementType::Div)
        .style(Style::Flex)
        .style(Style::Row)
        .style(Style::AlignCenter)
        .style(Style::Bg(COLOR_BG_TAB_WRAP))
        .style(Style::Radius(10))
        .style(Style::Padding(4))
        .child(extract_tab)
        .child(tutorial_tab);
    ElementView::bare(ElementType::Div)
        .style(Style::WidthFull)
        .style(Style::Flex)
        .style(Style::JustifyCenter)
        .style(Style::MarginTop(16))
        .style(Style::MarginBottom(24))
        .child(tab_wrap)
}

/// The two tabs of the page.
fn tab_bar(active_tab: UiTab) -> (r: Element)
    ensures
        r@ == tab_bar_view(active_tab),
{
    let extract_tab = single_tab("提取工具", TAB_EXTRACT_EVENT, active_tab == UiTab::Extract, true);
    let tutorial_tab = single_tab("使用教程", TAB_TUTORIAL_EVENT, active_tab == UiTab::Tutorial, false);
    let tab_wrap = Element::bare(ElementType::Div)
        .style(Style::Flex)
        .style(Style::Row)
        .style(Style::AlignCenter)
        .style(Style::Bg(COLOR_BG_TAB_WRAP))
        .style(Style::Radius(10))
        .style(Style::Padding(4))
        .child(extract_tab)
        .child(tutorial_tab);
    Element::bare(ElementType::Div)
        .style(Style::WidthFull)
        .style(Style::Flex)
        .style(Style::JustifyCenter)
        .style(Style::MarginTop(16))
        .style(Style::MarginBottom(24))
        .child(tab_wrap)
}

pub open spec fn action_button_view(label: Seq<char>, event_id: Seq<char>, bg_color: &'static str, border_color: &'static str, label_color: &'static str) -> ElementView {
    let btn = ElementView::new(ElementType::Button, label)
        .style(Style::WithoutDefaults)
        .on(UiEvent::Click, event_id)
        .style(Style::Bg(bg_color))
        .style(Style::Radius(10))
        .style(Style::PaddingTop(10))
        .style(Style::PaddingBottom(10))
        .style(Style::PaddingLeft(16))
        .style(Style::PaddingRight(16))
        .style(Style::Size(13))
        .style(Style::TextColor(label_color))
        .style(Style::Transition(SMOOTH));
    if border_color@ != NO_BORDER@ {
        btn.style(Style::Border(1, border_color))
    } else {
        btn
    }
}

fn action_button(label: &str, event_id: &str, bg_color: &'static str, border_color: &'static str, label_color: &'static str) -> (r: Element)
    ensures
        r@ == action_button_view(label@, event_id@, bg_color, border_color, label_color),
{
    let btn = Element::new(ElementType::Button, label)
        .style(Style::WithoutDefaults)
        .on(UiEvent::Click, event_id)
        .style(Style::Bg(bg_color))
        .style(Style::Radius(10))
        .style(Style::PaddingTop(10))
        .style(Style::PaddingBottom(10))
        .style(Style::PaddingLeft(16))
        .style(Style::PaddingRight(16))
        .style(Style::Size(13))
        .style(Style::TextColor(label_color))
        .style(Style::Transition(SMOOTH));
    if !str_eq(border_color, NO_BORDER) {
        btn.style(Style::Border(1, border_color))
    } else {
        btn
    }
}

pub open spec fn encrypt_key_header_view(copy_event: Seq<char>) -> ElementView {
    let label = ElementView::new(ElementType::P, "encryptKey"@)
        .style(Style::Size(12))
        .style(Style::TextColor(COLOR_TEXT_MUTED));
    let copy_btn = ElementView::new(ElementType::Button, "复制 AuthKey"@)
        .style(Style::WithoutDefaults)
        .on(UiEvent::Click, copy_event)
        .style(Style::Bg(COLOR_BG_BADGE))
        .style(Style::Border(1, COLOR_BORDER_SOFT))
        .style(Style::Radius(8))
        .style(Style::PaddingTop(6))
        .style(Style::PaddingBottom(6))
        .style(Style::PaddingLeft(10))
        .style(Style::PaddingRight(10))
        .style(Style::Size(12))
        .style(Style::TextColor(COLOR_TEXT_SECONDARY))
        .style(Style::Transition(SMOOTH));
    ElementView::bare(ElementType::Div)
        .style(Style::WidthFull)
        .style(Style::Flex)
        .style(Style::Row)
        .style(Style::AlignCenter)
        .style(Style::MarginTop(14))
        .child(label)
        .child(copy_btn.style(Style::MarginLeft(10)))
}

fn encrypt_key_header(copy_event: &str) -> (r: Element)
    ensures
        r@ == encrypt_key_header_view(copy_event@),
{
    let label = Element::new(ElementType::P, "encryptKey")
        .style(Style::Size(12))
        .style(Style::TextColor(COLOR_TEXT_MUTED));
    let copy_btn = Element::new(ElementType::Button, "复制 AuthKey")
        .style(Style::WithoutDefaults)
        .on(UiEvent::Click, copy_event)
        .style(Style::Bg(COLOR_BG_BADGE))
        .style(Style::Border(1, COLOR_BORDER_SOFT))
        .style(Style::Radius(8))
        .style(Style::PaddingTop(6))
        .style(Style::PaddingBottom(6))
        .style(Style::PaddingLeft(10))
        .style(Style::PaddingRight(10))
        .style(Style::Size(12))
        .style(Style::TextColor(COLOR_TEXT_SECONDARY))
        .style(Style::Transition(SMOOTH));
    Element::bare(ElementType::Div)
        .style(Style::WidthFull)
        .style(Style::Flex)
        .style(Style::Row)
        .style(Style::AlignCenter)
        .style(Style::MarginTop(14))
        .child(label)
        .child(copy_btn.style(Style::MarginLeft(10)))
}

/// The color of a status: what failed, what runs, what is done, anything else.
pub open spec fn status_color(status: Seq<char>) -> &'static str {
    if text::begins_with(status, "处理失败"@) {
        COLOR_TEXT_DANGER
    } else if text::begins_with(status, "正在"@) {
        COLOR_TEXT_WARN
    } else if text::begins_with(status, "解析完成"@) {
        COLOR_TEXT_SUCCESS
    } else {
        COLOR_TEXT_PRIMARY
    }
}

pub fn status_text_color(status: &str) -> (r: &'static str)
    ensures
        r == status_color(status@),
{
    if text::starts_with(status, "处理失败") {
        COLOR_TEXT_DANGER
    } else if text::starts_with(status, "正在") {
        COLOR_TEXT_WARN
    } else if text::starts_with(status, "解析完成") {
        COLOR_TEXT_SUCCESS
    } else {
        COLOR_TEXT_PRIMARY
    }
}

/// One device with its key.
pub open spec fn device_card_view(item: DeviceInfo, index: usize) -> ElementView {
    let lock_event = (KEY_INPUT_LOCK_PREFIX@ + text::decimal(index as nat));
    let copy_event = (COPY_ENCRYPT_KEY_EVENT_PREFIX@ + text::decimal(index as nat));
    let platform_badge = ElementView::new(ElementType::Span, item.platform.label())
        .style(Style::PaddingTop(3))
        .style(Style::PaddingBottom(3))
        .style(Style::PaddingLeft(8))
        .style(Style::PaddingRight(8))
        .style(Style::Size(11))
        .style(Style::TextColor(COLOR_TEXT_SECONDARY))
        .style(Style::Bg(COLOR_BG_BADGE))
        .style(Style::Radius(6));
    let card_title = ElementView::new(ElementType::P, item.name@)
        .style(Style::Size(15))
        .style(Style::MarginLeft(10))
        .style(Style::TextColor(COLOR_TEXT_PRIMARY));
    let header_row = ElementView::bare(ElementType::Div)
        .style(Style::WidthFull)
        .style(Style::Flex)
        .style(Style::Row)
        .style(Style::AlignCenter)
        .child(platform_badge)
        .child(card_title);
    let key_input = ElementView::new(ElementType::Input, item.encrypt_key@)
        .style(Style::WithoutDefaults)
        .style(Style::MarginTop(8))
        .style(Style::WidthFull)
        .style(Style::Padding(12))
        .style(Style::Bg(COLOR_BG_INPUT))
        .style(Style::Border(1, COLOR_BORDER_SOFT))
        .style(Style::Radius(8))
        .style(Style::Size(13))
        .style(Style::TextColor(COLOR_TEXT_PRIMARY))
        .style(Style::Transition(SMOOTH))
        .on(UiEvent::Input, lock_event);
    ElementView::bare(ElementType::Div)
        .style(Style::WidthFull)
        .style(Style::MarginBottom(14))
        .style(Style::Bg(COLOR_BG_CARD))
        .style(Style::Border(1, COLOR_BORDER_SOFT))
        .style(Style::Radius(10))
        .style(Style::Padding(16))
        .style(Style::Transition(SMOOTH))
        .child(header_row)
        .child(encrypt_key_header_view(copy_event))
        .child(key_input)
}

/// One device with its key.
fn device_card(item: &DeviceInfo, index: usize) -> (r: Element)
    ensures
        r@ == device_card_view(*item, index),
{
    let lock_event = text::cat(KEY_INPUT_LOCK_PREFIX, text::u64_text(index as u64).as_str());
    let copy_event = text::cat(COPY_ENCRYPT_KEY_EVENT_PREFIX, text::u64_text(index as u64).as_str());
    let platform_badge = Element::new(ElementType::Span, item.platform.as_label())
        .style(Style::PaddingTop(3))
        .style(Style::PaddingBottom(3))
        .style(Style::PaddingLeft(8))
        .style(Style::PaddingRight(8))
        .style(Style::Size(11))
        .style(Style::TextColor(COLOR_TEXT_SECONDARY))
        .style(Style::Bg(COLOR_BG_BADGE))
        .style(Style::Radius(6));
    let card_title = Element::new(ElementType::P, item.name.as_str())
        .style(Style::Size(15))
        .style(Style::MarginLeft(10))
        .style(Style::TextColor(COLOR_TEXT_PRIMARY));
    let header_row = Element::bare(ElementType::Div)
        .style(Style::WidthFull)
        .style(Style::Flex)
        .style(Style::Row)
        .style(Style::AlignCenter)
        .child(platform_badge)
        .child(card_title);
    let key_input = Element::new(ElementType::Input, item.encrypt_key.as_str())
        .style(Style::WithoutDefaults)
        .style(Style::MarginTop(8))
        .style(Style::WidthFull)
        .style(Style::Padding(12))
        .style(Style::Bg(COLOR_BG_INPUT))
        .style(Style::Border(1, COLOR_BORDER_SOFT))
        .style(Style::Radius(8))
        .style(Style::Size(13))
        .style(Style::TextColor(COLOR_TEXT_PRIMARY))
        .style(Style::Transition(SMOOTH))
        .on(UiEvent::Input, lock_event.as_str());
    Element::bare(ElementType::Div)
        .style(Style::WidthFull)
        .style(Style::MarginBottom(14))
        .style(Style::Bg(COLOR_BG_CARD))
        .style(Style::Border(1, COLOR_BORDER_SOFT))
        .style(Style::Radius(10))
        .style(Style::Padding(16))
        .style(Style::Transition(SMOOTH))
        .child(header_row)
        .child(encrypt_key_header(copy_event.as_str()))
        .child(key_input)
}

pub open spec fn empty_list_view() -> ElementView {
    let hint = ElementView::new(ElementType::P, "等待提取数据..."@)
        .style(Style::Size(13))
        .style(Style::TextColor(COLOR_TEXT_MUTED));
    ElementView::bare(ElementType::Div)
        .style(Style::WidthFull)
        .style(Style::Padding(30))
        .style(Style::Flex)
        .style(Style::JustifyCenter)
        .style(Style::AlignCenter)
        .style(Style::Bg(COLOR_BG_CARD))
        .style(Style::Border(1, COLOR_BORDER_SOFT))
        .style(Style::Radius(10))
        .child(hint)
}

fn empty_list() -> (r: Element)
    ensures
        r@ == empty_list_view(),
{
    let hint = Element::new(ElementType::P, "等待提取数据...")
        .style(Style::Size(13))
        .style(Style::TextColor(COLOR_TEXT_MUTED));
    Element::bare(ElementType::Div)
        .style(Style::WidthFull)
        .style(Style::Padding(30))
        .style(Style::Flex)
        .style(Style::JustifyCenter)
        .style(Style::AlignCenter)
        .style(Style::Bg(COLOR_BG_CARD))
        .style(Style::Border(1, COLOR_BORDER_SOFT))
        .style(Style::Radius(10))
        .child(hint)
}

pub open spec fn list_head_view() -> ElementView {
    ElementView::bare(ElementType::Div).style(Style::WidthFull)
}

fn list_head() -> (r: Element)
    ensures
        r@ == list_head_view(),
{
    Element::bare(ElementType::Div).style(Style::WidthFull)
}

/// One card per device.
pub open spec fn device_cards(devices: Seq<DeviceInfo>) -> ElementView
    decreases devices.len(),
{
    if devices.len() == 0 {
        list_head_view()
    } else {
        device_cards(devices.drop_last()).child(
            device_card_view(devices.last(), (devices.len() - 1) as usize),
        )
    }
}

/// The list of devices.
pub open spec fn device_list_view(devices: Seq<DeviceInfo>) -> ElementView {
    if devices.len() == 0 {
        empty_list_view()
    } else {
        device_cards(devices)
    }
}

pub fn build_device_list(devices: &Vec<DeviceInfo>) -> (r: Element)
    ensures
        r@ == device_list_view(devices@),
{
    if devices.len() == 0 {
        return empty_list();
    }
    let mut container = list_head();
    let mut i: usize = 0;
    while i < devices.len()
        invariant
            i <= devices@.len(),
            container@ == device_cards(devices@.take(i as int)),
        decreases devices.len() - i,
    {
        assert(devices@.take(i + 1).drop_last() =~= devices@.take(i as int));
        container = container.child(device_card(&devices[i], i));
        i = i + 1;
    }
    assert(devices@.take(i as int) =~= devices@);
    container
}

pub open spec fn status_block_view(status: Seq<char>, source_line: Seq<char>, color: &'static str) -> ElementView {
    let status_text = ElementView::new(ElementType::P, status)
        .style(Style::Size(14))
        .style(Style::TextColor(color));
    let source_text = ElementView::new(ElementType::P, source_line)
        .style(Style::MarginTop(6))
        .style(Style::Size(12))
        .style(Style::TextColor(COLOR_TEXT_MUTED));
    ElementView::bare(ElementType::Div)
        .style(Style::WidthFull)
        .style(Style::Bg(COLOR_BG_CARD))
        .style(Style::Border(1, COLOR_BORDER_SOFT))
        .style(Style::Radius(10))
        .style(Style::Padding(16))
        .style(Style::MarginBottom(24))
        .child(status_text)
        .child(source_text)
}

fn status_block(status: &str, source_line: &str, color: &'static str) -> (r: Element)
    ensures
        r@ == status_block_view(status@, source_line@, color),
{
    let status_text = Element::new(ElementType::P, status)
        .style(Style::Size(14))
        .style(Style::TextColor(color));
    let source_text = Element::new(ElementType::P, source_line)
        .style(Style::MarginTop(6))
        .style(Style::Size(12))
        .style(Style::TextColor(COLOR_TEXT_MUTED));
    Element::bare(ElementType::Div)
        .style(Style::WidthFull)
        .style(Style::Bg(COLOR_BG_CARD))
        .style(Style::Border(1, COLOR_BORDER_SOFT))
        .style(Style::Radius(10))
        .style(Style::Padding(16))
        .style(Style::MarginBottom(24))
        .child(status_text)
        .child(source_text)
}

pub open spec fn action_row_view() -> ElementView {
    let android_btn = action_button_view("选择 Android ZIP"@, PICK_ANDROID_ZIP_EVENT@, COLOR_BG_BTN_PRIMARY, NO_BORDER, COLOR_TEXT_BTN_PRIMARY).style(Style::MarginRight(10));
    let ios_btn = action_button_view("选择 iOS SQLite"@, PICK_IOS_SQLITE_EVENT@, COLOR_BG_BTN_SECONDARY, NO_BORDER, COLOR_TEXT_BTN_SECONDARY).style(Style::MarginRight(10));
    let clear_btn = action_button_view("清空"@, CLEAR_RESULT_EVENT@, COLOR_BG_BTN_DANGER, NO_BORDER, COLOR_TEXT_BTN_DANGER);
    ElementView::bare(ElementType::Div)
        .style(Style::Flex)
        .style(Style::Row)
        .style(Style::AlignCenter)
        .style(Style::MarginBottom(20))
        .child(android_btn)
        .child(ios_btn)
        .child(clear_btn)
}

fn action_row() -> (r: Element)
    ensures
        r@ == action_row_view(),
{
    let android_btn = action_button("选择 Android ZIP", PICK_ANDROID_ZIP_EVENT, COLOR_BG_BTN_PRIMARY, NO_BORDER, COLOR_TEXT_BTN_PRIMARY).style(Style::MarginRight(10));
    let ios_btn = action_button("选择 iOS SQLite", PICK_IOS_SQLITE_EVENT, COLOR_BG_BTN_SECONDARY, NO_BORDER, COLOR_TEXT_BTN_SECONDARY).style(Style::MarginRight(10));
    let clear_btn = action_button("清空", CLEAR_RESULT_EVENT, COLOR_BG_BTN_DANGER, NO_BORDER, COLOR_TEXT_BTN_DANGER);
    Element::bare(ElementType::Div)
        .style(Style::Flex)
        .style(Style::Row)
        .style(Style::AlignCenter)
        .style(Style::MarginBottom(20))
        .child(android_btn)
        .child(ios_btn)
        .child(clear_btn)
}

pub open spec fn result_title_view(count: usize) -> ElementView {
    let count_label = (text::decimal(count as nat) + " 台设备"@);
    let title = ElementView::new(ElementType::P, "解析结果"@)
        .style(Style::Size(16))
        .style(Style::TextColor(COLOR_TEXT_PRIMARY));
    let badge = ElementView::new(ElementType::Span, count_label)
        .style(Style::MarginLeft(10))
        .style(Style::PaddingTop(2))
        .style(Style::PaddingBottom(2))
        .style(Style::PaddingLeft(8))
        .style(Style::PaddingRight(8))
        .style(Style::Size(11))
        .style(Style::TextColor(COLOR_TEXT_SECONDARY))
        .style(Style::Bg(COLOR_BG_BADGE))
        .style(Style::Radius(6));
    ElementView::bare(ElementType::Div)
        .style(Style::WidthFull)
        .style(Style::Flex)
        .style(Style::Row)
        .style(Style::AlignCenter)
        .style(Style::MarginBottom(16))
        .child(title)
        .child(badge)
}

fn result_title(count: usize) -> (r: Element)
    ensures
        r@ == result_title_view(count),
{
    let count_label = text::cat(text::u64_text(count as u64).as_str(), " 台设备");
    let title = Element::new(ElementType::P, "解析结果")
        .style(Style::Size(16))
        .style(Style::TextColor(COLOR_TEXT_PRIMARY));
    let badge = Element::new(ElementType::Span, count_label.as_str())
        .style(Style::MarginLeft(10))
        .style(Style::PaddingTop(2))
        .style(Style::PaddingBottom(2))
        .style(Style::PaddingLeft(8))
        .style(Style::PaddingRight(8))
        .style(Style::Size(11))
        .style(Style::TextColor(COLOR_TEXT_SECONDARY))
        .style(Style::Bg(COLOR_BG_BADGE))
        .style(Style::Radius(6));
    Element::bare(ElementType::Div)
        .style(Style::WidthFull)
        .style(Style::Flex)
        .style(Style::Row)
        .style(Style::AlignCenter)
        .style(Style::MarginBottom(16))
        .child(title)
        .child(badge)
}

/// The line that names the source.
pub open spec fn source_line(source: Option<Seq<char>>) -> Seq<char> {
    match source {
        Some(path) => "来源: "@ + path,
        None => "尚未加载文件"@,
    }
}

/// The tab with the results.
pub open spec fn extract_tab_view(s: UiState) -> ElementView {
    ElementView::bare(ElementType::Div).style(Style::WidthFull).child(action_row_view()).child(
        status_block_view(
            s.status@,
            source_line(text::opt_text(s.source_file)),
            status_color(s.status@),
        ),
    ).child(result_title_view(s.devices@.len() as usize)).child(device_list_view(s.devices@))
}

pub fn build_extract_tab(s: &UiState) -> (r: Element)
    ensures
        r@ == extract_tab_view(*s),
{
    let line = match &s.source_file {
        Some(path) => text::cat("来源: ", path.as_str()),
        None => "尚未加载文件".to_owned(),
    };
    let color = status_text_color(s.status.as_str());
    Element::bare(ElementType::Div).style(Style::WidthFull).child(action_row()).child(
        status_block(s.status.as_str(), line.as_str(), color),
    ).child(result_title(s.devices.len())).child(build_device_list(&s.devices))
}

// ---------------------------------------------------------------- tutorial

pub open spec fn tutorial_video_view(video_src: Seq<char>) -> ElementView {
    ElementView::new(ElementType::Video, video_src)
        .style(Style::WidthFull)
        .style(Style::Height(260))
        .style(Style::MarginTop(16))
        .style(Style::Border(1, COLOR_BORDER_SOFT))
        .style(Style::Radius(10))
}

fn tutorial_video(video_src: &str) -> (r: Element)
    ensures
        r@ == tutorial_video_view(video_src@),
{
    Element::new(ElementType::Video, video_src)
        .style(Style::WidthFull)
        .style(Style::Height(260))
        .style(Style::MarginTop(16))
        .style(Style::Border(1, COLOR_BORDER_SOFT))
        .style(Style::Radius(10))
}

/// One numbered step.
pub open spec fn tutorial_line_view(index: usize, line: Seq<char>) -> ElementView {
    let line_text = (text::decimal(index as nat) + ". "@ + line);
    let el = ElementView::new(ElementType::P, line_text)
        .style(Style::Size(13))
        .style(Style::TextColor(COLOR_TEXT_SECONDARY));
    if index > 1 {
        el.style(Style::MarginTop(10))
    } else {
        el
    }
}

/// One numbered step.
fn tutorial_line(index: usize, line: &str) -> (r: Element)
    ensures
        r@ == tutorial_line_view(index, line@),
{
    let line_text = text::cat(text::cat(text::u64_text(index as u64).as_str(), ". ").as_str(), line);
    let el = Element::new(ElementType::P, line_text.as_str())
        .style(Style::Size(13))
        .style(Style::TextColor(COLOR_TEXT_SECONDARY));
    if index > 1 {
        el.style(Style::MarginTop(10))
    } else {
        el
    }
}

pub open spec fn tutorial_list_view() -> ElementView {
    ElementView::bare(ElementType::Div)
        .style(Style::WidthFull)
        .style(Style::MarginTop(12))
        .style(Style::Bg(COLOR_BG_CARD))
        .style(Style::Border(1, COLOR_BORDER_SOFT))
        .style(Style::Radius(10))
        .style(Style::Padding(16))
}

fn tutorial_list() -> (r: Element)
    ensures
        r@ == tutorial_list_view(),
{
    Element::bare(ElementType::Div)
        .style(Style::WidthFull)
        .style(Style::MarginTop(12))
        .style(Style::Bg(COLOR_BG_CARD))
        .style(Style::Border(1, COLOR_BORDER_SOFT))
        .style(Style::Radius(10))
        .style(Style::Padding(16))
}

pub open spec fn tutorial_frame_view(title: Seq<char>) -> ElementView {
    let section_title = ElementView::new(ElementType::P, title)
        .style(Style::Size(16))
        .style(Style::TextColor(COLOR_TEXT_PRIMARY));
    ElementView::bare(ElementType::Div)
        .style(Style::WidthFull)
        .style(Style::MarginBottom(24))
        .child(section_title)
}

fn tutorial_frame(title: &str) -> (r: Element)
    ensures
        r@ == tutorial_frame_view(title@),
{
    let section_title = Element::new(ElementType::P, title)
        .style(Style::Size(16))
        .style(Style::TextColor(COLOR_TEXT_PRIMARY));
    Element::bare(ElementType::Div)
        .style(Style::WidthFull)
        .style(Style::MarginBottom(24))
        .child(section_title)
}

/// How to export from each platform; the videos are given by their sources.
pub open spec fn tutorial_tab_view(android_video: Seq<char>, ios_video: Seq<char>) -> ElementView {
    let android_list = tutorial_list_view()
        .child(tutorial_line_view(1, "打开小米运动健康App，点击底栏中的“我的”，滑动到底部，进入“关于”页"@))
        .child(tutorial_line_view(2, "在页面中快速连续点击App图标多次，直到出现“Log迁移至...”提示，点击确定"@))
        .child(tutorial_line_view(3, "在该插件功能页中点击“选择Android ZIP”，进入路径“本机内部存储 > Downloads > wearablelog”，选取最新的log压缩包"@));
    let android_section = tutorial_frame_view("Android 导出流程"@)
        .child(android_list)
        .child(tutorial_video_view(android_video));
    let ios_list = tutorial_list_view()
        .child(tutorial_line_view(1, "在该插件功能页中点击“选择iOS SQLite”"@))
        .child(tutorial_line_view(2, "在打开的文件选取器中进入“我的iPhone”"@))
        .child(tutorial_line_view(3, "进入路径“小米运动健康 > MHWCahe > 你的小米账号ID > VirtualDevice_registerList”"@))
        .child(tutorial_line_view(4, "选取名为“manifest.sqlite”的文件"@));
    let ios_section = tutorial_frame_view("iOS 导出流程"@)
        .child(ios_list)
        .child(tutorial_video_view(ios_video));
    ElementView::bare(ElementType::Div)
        .style(Style::WidthFull)
        .child(android_section)
        .child(ios_section)
}

/// How to export from each platform; the videos are given by their sources.
fn tutorial_tab(android_video: &str, ios_video: &str) -> (r: Element)
    ensures
        r@ == tutorial_tab_view(android_video@, ios_video@),
{
    let android_list = tutorial_list()
        .child(tutorial_line(1, "打开小米运动健康App，点击底栏中的“我的”，滑动到底部，进入“关于”页"))
        .child(tutorial_line(2, "在页面中快速连续点击App图标多次，直到出现“Log迁移至...”提示，点击确定"))
        .child(tutorial_line(3, "在该插件功能页中点击“选择Android ZIP”，进入路径“本机内部存储 > Downloads > wearablelog”，选取最新的log压缩包"));
    let android_section = tutorial_frame("Android 导出流程")
        .child(android_list)
        .child(tutorial_video(android_video));
    let ios_list = tutorial_list()
        .child(tutorial_line(1, "在该插件功能页中点击“选择iOS SQLite”"))
        .child(tutorial_line(2, "在打开的文件选取器中进入“我的iPhone”"))
        .child(tutorial_line(3, "进入路径“小米运动健康 > MHWCahe > 你的小米账号ID > VirtualDevice_registerList”"))
        .child(tutorial_line(4, "选取名为“manifest.sqlite”的文件"));
    let ios_section = tutorial_frame("iOS 导出流程")
        .child(ios_list)
        .child(tutorial_video(ios_video));
    Element::bare(ElementType::Div)
        .style(Style::WidthFull)
        .child(android_section)
        .child(ios_section)
}

// ---------------------------------------------------------------- page

pub open spec fn page_header_view() -> ElementView {
    let title = ElementView::new(ElementType::P, "Mi Fitness Extractor"@)
        .style(Style::Size(24))
        .style(Style::TextColor(COLOR_TEXT_PRIMARY));
    let subtitle = ElementView::new(ElementType::P, "提取 Mi Fitness 导出文件中的设备名与 encryptKey"@)
        .style(Style::MarginTop(6))
        .style(Style::Size(14))
        .style(Style::TextColor(COLOR_TEXT_SECONDARY));
    ElementView::bare(ElementType::Div)
        .style(Style::WidthFull)
        .style(Style::MarginBottom(10))
        .child(title)
        .child(subtitle)
}

fn page_header() -> (r: Element)
    ensures
        r@ == page_header_view(),
{
    let title = Element::new(ElementType::P, "Mi Fitness Extractor")
        .style(Style::Size(24))
        .style(Style::TextColor(COLOR_TEXT_PRIMARY));
    let subtitle = Element::new(ElementType::P, "提取 Mi Fitness 导出文件中的设备名与 encryptKey")
        .style(Style::MarginTop(6))
        .style(Style::Size(14))
        .style(Style::TextColor(COLOR_TEXT_SECONDARY));
    Element::bare(ElementType::Div)
        .style(Style::WidthFull)
        .style(Style::MarginBottom(10))
        .child(title)
        .child(subtitle)
}

/// The whole page.
pub open spec fn main_view(s: UiState, android_video: Seq<char>, ios_video: Seq<char>) -> ElementView {
    ElementView::bare(ElementType::Div).style(Style::WidthFull).style(Style::Padding(20)).child(
        page_header_view(),
    ).child(tab_bar_view(s.active_tab)).child(
        match s.active_tab {
            UiTab::Extract => extract_tab_view(s),
            UiTab::Tutorial => tutorial_tab_view(android_video, ios_video),
        },
    )
}

pub fn build_main_ui(s: &UiState, android_video: &str, ios_video: &str) -> (r: Element)
    ensures
        r@ == main_view(*s, android_video@, ios_video@),
{
    let content = match s.active_tab {
        UiTab::Extract => build_extract_tab(s),
        UiTab::Tutorial => tutorial_tab(android_video, ios_video),
    };
    Element::bare(ElementType::Div).style(Style::WidthFull).style(Style::Padding(20)).child(
        page_header(),
    ).child(tab_bar(s.active_tab)).child(content)
}

/// Where the page is to be rendered, and the page.
pub fn render_state(s: &UiState, android_video: &str, ios_video: &str) -> (r: Option<(String, Element)>)
    ensures
        match r {
            Some((id, e)) => s.root_element_id == Some(id) && e@ == main_view(
                *s,
                android_video@,
                ios_video@,
            ),
            None => s.root_element_id is None,
        },
{
    match &s.root_element_id {
        Some(id) => Some((id.clone(), build_main_ui(s, android_video, ios_video))),
        None => None,
    }
}

/// Takes the element in which the host shows the page.
pub fn render_main_ui(s: &mut UiState, element_id: &str, android_video: &str, ios_video: &str) -> (r:
    Option<(String, Element)>)
    ensures
        text::opt_text(final(s).root_element_id) == Some(element_id@),
        *final(s) == (UiState { root_element_id: final(s).root_element_id, ..*old(s) }),
        match r {
            Some((id, e)) => id@ == element_id@ && e@ == main_view(
                *final(s),
                android_video@,
                ios_video@,
            ),
            None => false,
        },
{
    s.root_element_id = Some(element_id.to_owned());
    render_state(s, android_video, ios_video)
}

// ---------------------------------------------------------------- laws

/// The copy event of a card names the device of the card.
pub proof fn copy_events_name_their_device(index: nat)
    requires
        index <= usize::MAX,
    ensures
        copy_index(COPY_ENCRYPT_KEY_EVENT_PREFIX@ + text::decimal(index)) == Some(index),
{
    let prefix = COPY_ENCRYPT_KEY_EVENT_PREFIX@;
    let id = prefix + text::decimal(index);
    assert(id.subrange(0, prefix.len() as int) =~= prefix);
    assert(id.skip(prefix.len() as int) =~= text::decimal(index));
    text::decimal_round_trip(index, usize::MAX as nat);
}

proof fn lemma_click_ids()
    ensures
        "pick_android_zip"@ != "pick_ios_sqlite"@,
        "pick_android_zip"@ != "tab_extract"@,
        "pick_android_zip"@ != "tab_tutorial"@,
        "pick_android_zip"@ != "clear_result"@,
        "pick_ios_sqlite"@ != "tab_extract"@,
        "pick_ios_sqlite"@ != "tab_tutorial"@,
        "pick_ios_sqlite"@ != "clear_result"@,
        "tab_extract"@ != "tab_tutorial"@,
        "tab_extract"@ != "clear_result"@,
        "tab_tutorial"@ != "clear_result"@,
{
    reveal_strlit("pick_android_zip");
    reveal_strlit("pick_ios_sqlite");
    reveal_strlit("tab_extract");
    reveal_strlit("tab_tutorial");
    reveal_strlit("clear_result");
    assert("pick_android_zip"@.len() != "pick_ios_sqlite"@.len());
    assert("pick_android_zip"@.len() != "tab_extract"@.len());
    assert("pick_android_zip"@.len() != "tab_tutorial"@.len());
    assert("pick_android_zip"@.len() != "clear_result"@.len());
    assert("pick_ios_sqlite"@.len() != "tab_extract"@.len());
    assert("pick_ios_sqlite"@.len() != "tab_tutorial"@.len());
    assert("pick_ios_sqlite"@.len() != "clear_result"@.len());
    assert("tab_extract"@.len() != "tab_tutorial"@.len());
    assert("tab_extract"@.len() != "clear_result"@.len());
    assert("tab_tutorial"@[0] != "clear_result"@[0]);
}

/// The card of a device shows its name and its key, and its button asks for the key
/// at the place of the card.
pub proof fn cards_show_their_device(d: DeviceInfo, index: usize)
    ensures
        ({
            let card = device_card_view(d, index);
            &&& card.shows(d.name@)
            &&& card.shows(d.encrypt_key@)
            &&& card.shows(d.platform.label())
            &&& card.fires(
                UiEvent::Click,
                COPY_ENCRYPT_KEY_EVENT_PREFIX@ + text::decimal(index as nat),
            )
        }),
{
    let card = device_card_view(d, index);
    let head = card.children[0];
    assert(head.children[0].text == Some(d.platform.label()));
    assert(head.children[0].shows(d.platform.label()));
    assert(head.shows(d.platform.label()));
    assert(head.children[1].text == Some(d.name@));
    assert(head.children[1].shows(d.name@));
    assert(head.shows(d.name@));
    assert(card.children[2].text == Some(d.encrypt_key@));
    assert(card.children[2].shows(d.encrypt_key@));
    let copy = (UiEvent::Click, COPY_ENCRYPT_KEY_EVENT_PREFIX@ + text::decimal(index as nat));
    let row = card.children[1];
    assert(row.children[1].events[0] == copy);
    assert(row.children[1].fires(copy.0, copy.1));
    assert(row.fires(copy.0, copy.1));
}

proof fn lemma_device_cards_len(devices: Seq<DeviceInfo>)
    ensures
        device_cards(devices).children.len() == devices.len(),
    decreases devices.len(),
{
    if devices.len() > 0 {
        lemma_device_cards_len(devices.drop_last());
    }
}

/// Each device has its card, in the order in which the devices were found.
pub proof fn each_device_has_its_card(devices: Seq<DeviceInfo>, i: int)
    requires
        0 <= i < devices.len() <= usize::MAX,
    ensures
        device_list_view(devices).children.len() == devices.len(),
        device_list_view(devices).children[i] == device_card_view(devices[i], i as usize),
    decreases devices.len(),
{
    let rest = devices.drop_last();
    lemma_device_cards_len(rest);
    lemma_device_cards_len(devices);
    if i < rest.len() {
        each_device_has_its_card(rest, i);
        assert(rest[i] == devices[i]);
    }
}

/// The button on the card of a device copies the key of that device.
pub proof fn buttons_copy_the_key_beside_them(
    before: UiState,
    after: UiState,
    i: int,
    effect: UiEffect,
)
    requires
        0 <= i < before.devices@.len() <= usize::MAX,
        click_handled(
            before,
            after,
            COPY_ENCRYPT_KEY_EVENT_PREFIX@ + text::decimal(i as nat),
            effect,
        ),
    ensures
        effect matches UiEffect::Copy { name, key } && name == before.devices@[i].name && key
            == before.devices@[i].encrypt_key,
        after == before,
{
    copy_events_name_their_device(i as nat);
    let id = COPY_ENCRYPT_KEY_EVENT_PREFIX@ + text::decimal(i as nat);
    reveal_strlit("copy_encrypt_key_");
    reveal_strlit("pick_android_zip");
    reveal_strlit("pick_ios_sqlite");
    reveal_strlit("tab_extract");
    reveal_strlit("tab_tutorial");
    reveal_strlit("clear_result");
    assert(id[0] == 'c' && id[1] == 'o');
    assert("clear_result"@[1] == 'l');
    assert("pick_android_zip"@[0] == 'p' && "pick_ios_sqlite"@[0] == 'p');
    assert("tab_extract"@[0] == 't' && "tab_tutorial"@[0] == 't');
}

/// Clicks do what their buttons say: one picks a file of Android, one a file of iOS,
/// two change the tab, and one clears the result.
pub proof fn clicks_do_what_they_say(before: UiState, after: UiState, event: Seq<char>, effect: UiEffect)
    requires
        click_handled(before, after, event, effect),
    ensures
        event == "pick_android_zip"@ ==> effect == UiEffect::Pick(Platform::Android),
        event == "pick_ios_sqlite"@ ==> effect == UiEffect::Pick(Platform::Ios),
        event == "tab_extract"@ ==> after.active_tab == UiTab::Extract && after.devices
            == before.devices && after.status == before.status,
        event == "tab_tutorial"@ ==> after.active_tab == UiTab::Tutorial && after.devices
            == before.devices && after.status == before.status,
        event == "clear_result"@ ==> after.devices@.len() == 0 && after.source_file is None,
        event != "clear_result"@ ==> after.devices == before.devices && after.source_file
            == before.source_file,
        after.root_element_id == before.root_element_id,
{
    lemma_click_ids();
}

/// A file is taken for one of its platform by its extension, in upper or in lower
/// case.
pub proof fn files_are_told_by_extension(e: Seq<char>)
    ensures
        expected_extension(Platform::Android, Some(e)) <==> text::lowered(e) == text::lowered(
            "zip"@,
        ),
        expected_extension(Platform::Ios, Some(e)) <==> text::lowered(e) == text::lowered("sqlite"@)
            || text::lowered(e) == text::lowered("db"@),
        !expected_extension(Platform::Android, None) && !expected_extension(Platform::Ios, None),
        expected_extension(Platform::Android, Some(text::uppered(e))) == expected_extension(
            Platform::Android,
            Some(e),
        ),
        expected_extension(Platform::Ios, Some(text::uppered(e))) == expected_extension(
            Platform::Ios,
            Some(e),
        ),
{
    assert(text::lowered(text::uppered(e)) =~= text::lowered(e));
}

/// Of the files of a platform the one that was written last is taken, and of several
/// the first.
pub proof fn newest_files_are_taken(files: Seq<FoundFile>, platform: Platform, a: int, b: int)
    requires
        is_newest(files, platform, a),
        is_newest(files, platform, b),
    ensures
        a == b,
        forall|j: int|
            0 <= j < files.len() && expected_extension(
                platform,
                text::opt_text((#[trigger] files[j]).extension),
            ) ==> files[j].modified <= files[a].modified,
{
    assert(suits(files, platform, a));
    assert(suits(files, platform, b));
    assert forall|j: int|
        0 <= j < files.len() && expected_extension(
            platform,
            text::opt_text((#[trigger] files[j]).extension),
        ) implies files[j].modified <= files[a].modified by {
        assert(suits(files, platform, j));
    }
}

/// The page of results shows what was last said, where the devices come from and
/// how many there are.
pub proof fn results_are_shown(s: UiState)
    ensures
        ({
            let page = extract_tab_view(s);
            &&& page.shows(s.status@)
            &&& page.shows(source_line(text::opt_text(s.source_file)))
            &&& page.shows(text::decimal((s.devices@.len() as usize) as nat) + " 台设备"@)
            &&& page.fires(UiEvent::Click, PICK_ANDROID_ZIP_EVENT@)
            &&& page.fires(UiEvent::Click, PICK_IOS_SQLITE_EVENT@)
            &&& page.fires(UiEvent::Click, CLEAR_RESULT_EVENT@)
            &&& page.children.last() == device_list_view(s.devices@)
        }),
        s.source_file matches Some(p) ==> source_line(text::opt_text(s.source_file)) == "来源: "@
            + p@,
{
    let page = extract_tab_view(s);
    let source = source_line(text::opt_text(s.source_file));
    let count = text::decimal((s.devices@.len() as usize) as nat) + " 台设备"@;
    let row = page.children[0];
    let block = page.children[1];
    let title = page.children[2];
    assert(block.children[0].text == Some(s.status@));
    assert(block.children[0].shows(s.status@));
    assert(block.shows(s.status@));
    assert(block.children[1].text == Some(source));
    assert(block.children[1].shows(source));
    assert(block.shows(source));
    assert(title.children[1].text == Some(count));
    assert(title.children[1].shows(count));
    assert(title.shows(count));
    assert(row.children[0].events[0] == (UiEvent::Click, PICK_ANDROID_ZIP_EVENT@));
    assert(row.children[0].fires(UiEvent::Click, PICK_ANDROID_ZIP_EVENT@));
    assert(row.fires(UiEvent::Click, PICK_ANDROID_ZIP_EVENT@));
    assert(row.children[1].events[0] == (UiEvent::Click, PICK_IOS_SQLITE_EVENT@));
    assert(row.children[1].fires(UiEvent::Click, PICK_IOS_SQLITE_EVENT@));
    assert(row.fires(UiEvent::Click, PICK_IOS_SQLITE_EVENT@));
    assert(row.children[2].events[0] == (UiEvent::Click, CLEAR_RESULT_EVENT@));
    assert(row.children[2].fires(UiEvent::Click, CLEAR_RESULT_EVENT@));
    assert(row.fires(UiEvent::Click, CLEAR_RESULT_EVENT@));
}

/// What is said is colored by how things stand: what works is, what failed, and what
/// is done.
pub proof fn statuses_are_colored(p: Platform, n: nat, detail: Option<Seq<char>>, e: Seq<char>)
    ensures
        status_color(picking_status(p)) == COLOR_TEXT_WARN,
        status_color(read_status(p, n, detail)) == COLOR_TEXT_SUCCESS,
        status_color("处理失败："@ + e) == COLOR_TEXT_DANGER,
{
    reveal_strlit("处理失败");
    reveal_strlit("处理失败：");
    reveal_strlit("正在");
    reveal_strlit("正在选择并处理 ");
    reveal_strlit("解析完成");
    reveal_strlit("解析完成：");
    let a = picking_status(p);
    assert(a[0] == '正' && a[1] == '在');
    assert(a.subrange(0, 2) =~= "正在"@);
    if text::begins_with(a, "处理失败"@) {
        assert(a.subrange(0, 4)[0] == '处');
    }
    let b = read_status(p, n, detail);
    assert(b[0] == '解' && b[1] == '析' && b[2] == '完' && b[3] == '成');
    assert(b.subrange(0, 4) =~= "解析完成"@);
    if text::begins_with(b, "处理失败"@) {
        assert(b.subrange(0, 4)[0] == '处');
    }
    if text::begins_with(b, "正在"@) {
        assert(b.subrange(0, 2)[0] == '正');
    }
    let c = "处理失败："@ + e;
    assert(c.subrange(0, 4) =~= "处理失败"@);
}

/// How many devices were found is said, and where, if that is known.
pub proof fn counts_are_said(p: Platform, n: nat, d: Seq<char>)
    ensures
        ({
            let s = read_status(p, n, None);
            let head = "解析完成："@ + p.label() + " 设备 "@;
            &&& s.subrange(head.len() as int, (head.len() + text::decimal(n).len()) as int)
                == text::decimal(n)
            &&& read_status(p, n, Some(d)) == s + "（"@ + d + "）"@
        }),
{
    let s = read_status(p, n, None);
    let head = "解析完成："@ + p.label() + " 设备 "@;
    assert(s.subrange(head.len() as int, (head.len() + text::decimal(n).len()) as int)
        =~= text::decimal(n));
}

/// The tab that is chosen is the one that is shown.
pub proof fn chosen_tabs_are_shown(s: UiState, a: Seq<char>, i: Seq<char>)
    ensures
        s.active_tab == UiTab::Extract ==> main_view(s, a, i).children.last() == extract_tab_view(s),
        s.active_tab == UiTab::Tutorial ==> main_view(s, a, i).children.last() == tutorial_tab_view(
            a,
            i,
        ),
        main_view(s, a, i).fires(UiEvent::Click, TAB_EXTRACT_EVENT@),
        main_view(s, a, i).fires(UiEvent::Click, TAB_TUTORIAL_EVENT@),
{
    let page = main_view(s, a, i);
    let bar = page.children[1];
    let wrap = bar.children[0];
    assert(wrap.children[0].events[0] == (UiEvent::Click, TAB_EXTRACT_EVENT@));
    assert(wrap.children[0].fires(UiEvent::Click, TAB_EXTRACT_EVENT@));
    assert(wrap.fires(UiEvent::Click, TAB_EXTRACT_EVENT@));
    assert(bar.fires(UiEvent::Click, TAB_EXTRACT_EVENT@));
    assert(wrap.children[1].events[0] == (UiEvent::Click, TAB_TUTORIAL_EVENT@));
    assert(wrap.children[1].fires(UiEvent::Click, TAB_TUTORIAL_EVENT@));
    assert(wrap.fires(UiEvent::Click, TAB_TUTORIAL_EVENT@));
    assert(bar.fires(UiEvent::Click, TAB_TUTORIAL_EVENT@));
}

} // verus!
