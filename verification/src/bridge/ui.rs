//! The page of the fetch bridge.
use vstd::prelude::*;
use vstd::string::*;

use crate::bridge::state::{self, AppEntry, InstalledApp, PluginState};
use crate::element::{Element, ElementType, ElementView, Style, UiEvent};
use crate::text::{self, str_eq};

verus! {

pub const EVENT_ADD_PKG_INPUT: &'static str = "input:add-pkg";

pub const EVENT_ADD_PKG_SUBMIT: &'static str = "action:add-pkg.submit";

pub const EVENT_REFRESH_DEVICES: &'static str = "action:devices.refresh";

pub const EVENT_CLEAR_NOTICE: &'static str = "action:notice.clear";

pub const PKG_TOGGLE_PREFIX: &'static str = "toggle:pkg:";

pub const PKG_REMOVE_PREFIX: &'static str = "action:pkg.remove:";

pub const PKG_REREGISTER_PREFIX: &'static str = "action:pkg.reregister:";

pub const PKG_PICK_PREFIX: &'static str = "action:pkg.pick:";

// The palette has no card backgrounds or borders, so the page keeps the surface of
// its host.
pub const COLOR_TEXT_PRIMARY: &'static str = "#f4f4f5";

pub const COLOR_TEXT_SECONDARY: &'static str = "#a1a1aa";

pub const COLOR_TEXT_MUTED: &'static str = "#71717a";

pub const COLOR_TEXT_ACCENT: &'static str = "#60a5fa";

pub const COLOR_TEXT_DANGER: &'static str = "#f87171";

pub const COLOR_TEXT_SUCCESS: &'static str = "#4ade80";

pub const COLOR_DIVIDER: &'static str = "#27272a";

pub const COLOR_BTN_PRIMARY_BG: &'static str = "#2563eb";

pub const COLOR_BTN_GHOST_BG: &'static str = "#27272a";

pub const COLOR_BTN_DANGER_BG: &'static str = "#3f1d1d";

// ---------------------------------------------------------------- parts

pub open spec fn divider_view() -> ElementView {
    ElementView::bare(ElementType::Div)
        .style(Style::WidthFull)
        .style(Style::Height(1))
        .style(Style::Bg(COLOR_DIVIDER))
}

fn divider() -> (r: Element)
    ensures
        r@ == divider_view(),
{
    Element::bare(ElementType::Div)
        .style(Style::WidthFull)
        .style(Style::Height(1))
        .style(Style::Bg(COLOR_DIVIDER))
}

pub open spec fn thin_divider_view() -> ElementView {
    ElementView::bare(ElementType::Div)
        .style(Style::WidthFull)
        .style(Style::Height(1))
        .style(Style::Bg(COLOR_DIVIDER))
        .style(Style::Opacity(600))
}

fn thin_divider() -> (r: Element)
    ensures
        r@ == thin_divider_view(),
{
    Element::bare(ElementType::Div)
        .style(Style::WidthFull)
        .style(Style::Height(1))
        .style(Style::Bg(COLOR_DIVIDER))
        .style(Style::Opacity(600))
}

pub open spec fn stat_pill_view(text: Seq<char>) -> ElementView {
    ElementView::new(ElementType::P, text)
        .style(Style::Size(12))
        .style(Style::TextColor(COLOR_TEXT_MUTED))
}

fn stat_pill(text: &str) -> (r: Element)
    ensures
        r@ == stat_pill_view(text@),
{
    Element::new(ElementType::P, text)
        .style(Style::Size(12))
        .style(Style::TextColor(COLOR_TEXT_MUTED))
}

/// The title of the page with its counts.
pub open spec fn header_section_view(device_count: usize, monitored: usize, installed: usize) -> ElementView {
    let title = ElementView::new(ElementType::P, "米环互联 Fetch"@)
        .style(Style::Size(28))
        .style(Style::TextColor(COLOR_TEXT_PRIMARY));
    let subtitle = ElementView::new(ElementType::P,
        "为手表端快应用提供 HTTP 联网能力，按包名授权访问。打开页面即自动刷新设备并重新注册接收器。"@,
    )
        .style(Style::Size(14))
        .style(Style::TextColor(COLOR_TEXT_SECONDARY));
    let devices_label = ("已连接设备 "@ + text::decimal(device_count as nat));
    let installed_label = ("设备应用 "@ + text::decimal(installed as nat));
    let monitored_label = ("已监听 "@ + text::decimal(monitored as nat));
    let stats_row = ElementView::bare(ElementType::Div)
        .style(Style::Flex)
        .style(Style::Row)
        .style(Style::Gap(16))
        .style(Style::MarginTop(4))
        .child(stat_pill_view(devices_label))
        .child(stat_pill_view(installed_label))
        .child(stat_pill_view(monitored_label));
    ElementView::bare(ElementType::Div)
        .style(Style::Flex)
        .style(Style::Column)
        .style(Style::Gap(6))
        .child(title)
        .child(subtitle)
        .child(stats_row)
}

/// The title of the page with its counts.
fn header_section(device_count: usize, monitored: usize, installed: usize) -> (r: Element)
    ensures
        r@ == header_section_view(device_count, monitored, installed),
{
    let title = Element::new(ElementType::P, "米环互联 Fetch")
        .style(Style::Size(28))
        .style(Style::TextColor(COLOR_TEXT_PRIMARY));
    let subtitle = Element::new(ElementType::P,
        "为手表端快应用提供 HTTP 联网能力，按包名授权访问。打开页面即自动刷新设备并重新注册接收器。",
    )
        .style(Style::Size(14))
        .style(Style::TextColor(COLOR_TEXT_SECONDARY));
    let devices_label = text::cat("已连接设备 ", text::u64_text(device_count as u64).as_str());
    let installed_label = text::cat("设备应用 ", text::u64_text(installed as u64).as_str());
    let monitored_label = text::cat("已监听 ", text::u64_text(monitored as u64).as_str());
    let stats_row = Element::bare(ElementType::Div)
        .style(Style::Flex)
        .style(Style::Row)
        .style(Style::Gap(16))
        .style(Style::MarginTop(4))
        .child(stat_pill(devices_label.as_str()))
        .child(stat_pill(installed_label.as_str()))
        .child(stat_pill(monitored_label.as_str()));
    Element::bare(ElementType::Div)
        .style(Style::Flex)
        .style(Style::Column)
        .style(Style::Gap(6))
        .child(title)
        .child(subtitle)
        .child(stats_row)
}

pub open spec fn primary_button_view(text: Seq<char>) -> ElementView {
    ElementView::new(ElementType::Button, text)
        .style(Style::PaddingTop(8))
        .style(Style::PaddingBottom(8))
        .style(Style::PaddingLeft(16))
        .style(Style::PaddingRight(16))
        .style(Style::Radius(6))
        .style(Style::Bg(COLOR_BTN_PRIMARY_BG))
        .style(Style::TextColor(COLOR_TEXT_PRIMARY))
        .style(Style::Size(13))
}

fn primary_button(text: &str) -> (r: Element)
    ensures
        r@ == primary_button_view(text@),
{
    Element::new(ElementType::Button, text)
        .style(Style::PaddingTop(8))
        .style(Style::PaddingBottom(8))
        .style(Style::PaddingLeft(16))
        .style(Style::PaddingRight(16))
        .style(Style::Radius(6))
        .style(Style::Bg(COLOR_BTN_PRIMARY_BG))
        .style(Style::TextColor(COLOR_TEXT_PRIMARY))
        .style(Style::Size(13))
}

pub open spec fn ghost_button_view(text: Seq<char>) -> ElementView {
    ElementView::new(ElementType::Button, text)
        .style(Style::PaddingTop(6))
        .style(Style::PaddingBottom(6))
        .style(Style::PaddingLeft(12))
        .style(Style::PaddingRight(12))
        .style(Style::Radius(6))
        .style(Style::Bg(COLOR_BTN_GHOST_BG))
        .style(Style::TextColor(COLOR_TEXT_SECONDARY))
        .style(Style::Size(12))
}

fn ghost_button(text: &str) -> (r: Element)
    ensures
        r@ == ghost_button_view(text@),
{
    Element::new(ElementType::Button, text)
        .style(Style::PaddingTop(6))
        .style(Style::PaddingBottom(6))
        .style(Style::PaddingLeft(12))
        .style(Style::PaddingRight(12))
        .style(Style::Radius(6))
        .style(Style::Bg(COLOR_BTN_GHOST_BG))
        .style(Style::TextColor(COLOR_TEXT_SECONDARY))
        .style(Style::Size(12))
}

pub open spec fn danger_button_view(text: Seq<char>) -> ElementView {
    ElementView::new(ElementType::Button, text)
        .style(Style::PaddingTop(6))
        .style(Style::PaddingBottom(6))
        .style(Style::PaddingLeft(12))
        .style(Style::PaddingRight(12))
        .style(Style::Radius(6))
        .style(Style::Bg(COLOR_BTN_DANGER_BG))
        .style(Style::TextColor(COLOR_TEXT_DANGER))
        .style(Style::Size(12))
}

fn danger_button(text: &str) -> (r: Element)
    ensures
        r@ == danger_button_view(text@),
{
    Element::new(ElementType::Button, text)
        .style(Style::PaddingTop(6))
        .style(Style::PaddingBottom(6))
        .style(Style::PaddingLeft(12))
        .style(Style::PaddingRight(12))
        .style(Style::Radius(6))
        .style(Style::Bg(COLOR_BTN_DANGER_BG))
        .style(Style::TextColor(COLOR_TEXT_DANGER))
        .style(Style::Size(12))
}

pub open spec fn text_button_view(text: Seq<char>, color: &'static str) -> ElementView {
    ElementView::new(ElementType::Button, text)
        .style(Style::WithoutDefaults)
        .style(Style::TextColor(color))
        .style(Style::Size(12))
}

fn text_button(text: &str, color: &'static str) -> (r: Element)
    ensures
        r@ == text_button_view(text@, color),
{
    Element::new(ElementType::Button, text)
        .style(Style::WithoutDefaults)
        .style(Style::TextColor(color))
        .style(Style::Size(12))
}

pub open spec fn notice_line_view(text: Seq<char>) -> ElementView {
    let label = ElementView::new(ElementType::P, text)
        .style(Style::Size(13))
        .style(Style::TextColor(COLOR_TEXT_ACCENT))
        .style(Style::FlexGrow(1000));
    let close_btn = text_button_view("收起"@, COLOR_TEXT_MUTED).on(UiEvent::Click, EVENT_CLEAR_NOTICE@);
    ElementView::bare(ElementType::Div)
        .style(Style::Flex)
        .style(Style::Row)
        .style(Style::AlignCenter)
        .style(Style::Gap(12))
        .child(label)
        .child(close_btn)
}

fn notice_line(text: &str) -> (r: Element)
    ensures
        r@ == notice_line_view(text@),
{
    let label = Element::new(ElementType::P, text)
        .style(Style::Size(13))
        .style(Style::TextColor(COLOR_TEXT_ACCENT))
        .style(Style::FlexGrow(1000));
    let close_btn = text_button("收起", COLOR_TEXT_MUTED).on(UiEvent::Click, EVENT_CLEAR_NOTICE);
    Element::bare(ElementType::Div)
        .style(Style::Flex)
        .style(Style::Row)
        .style(Style::AlignCenter)
        .style(Style::Gap(12))
        .child(label)
        .child(close_btn)
}

pub open spec fn section_title_view(text: Seq<char>) -> ElementView {
    ElementView::new(ElementType::P, text)
        .style(Style::Size(18))
        .style(Style::TextColor(COLOR_TEXT_PRIMARY))
}

fn section_title(text: &str) -> (r: Element)
    ensures
        r@ == section_title_view(text@),
{
    Element::new(ElementType::P, text)
        .style(Style::Size(18))
        .style(Style::TextColor(COLOR_TEXT_PRIMARY))
}

pub open spec fn section_hint_view(text: Seq<char>) -> ElementView {
    ElementView::new(ElementType::P, text)
        .style(Style::Size(12))
        .style(Style::TextColor(COLOR_TEXT_MUTED))
}

fn section_hint(text: &str) -> (r: Element)
    ensures
        r@ == section_hint_view(text@),
{
    Element::new(ElementType::P, text)
        .style(Style::Size(12))
        .style(Style::TextColor(COLOR_TEXT_MUTED))
}

pub open spec fn device_row_view(name: Seq<char>, addr: Seq<char>) -> ElementView {
    let shown = if name.len() == 0 {
        "未命名设备"@
    } else {
        name
    };
    let name_el = ElementView::new(ElementType::P, shown)
        .style(Style::Size(14))
        .style(Style::TextColor(COLOR_TEXT_PRIMARY));
    let addr_el = ElementView::new(ElementType::P, addr)
        .style(Style::Size(12))
        .style(Style::TextColor(COLOR_TEXT_MUTED));
    ElementView::bare(ElementType::Div)
        .style(Style::Flex)
        .style(Style::Column)
        .style(Style::Gap(2))
        .child(name_el)
        .child(addr_el)
}

fn device_row(name: &str, addr: &str) -> (r: Element)
    ensures
        r@ == device_row_view(name@, addr@),
{
    let shown = if name.is_empty() {
        "未命名设备"
    } else {
        name
    };
    let name_el = Element::new(ElementType::P, shown)
        .style(Style::Size(14))
        .style(Style::TextColor(COLOR_TEXT_PRIMARY));
    let addr_el = Element::new(ElementType::P, addr)
        .style(Style::Size(12))
        .style(Style::TextColor(COLOR_TEXT_MUTED));
    Element::bare(ElementType::Div)
        .style(Style::Flex)
        .style(Style::Column)
        .style(Style::Gap(2))
        .child(name_el)
        .child(addr_el)
}

pub open spec fn device_head_view() -> ElementView {
    ElementView::bare(ElementType::Div)
        .style(Style::Flex)
        .style(Style::Column)
        .style(Style::Gap(10))
        .child(section_title_view("已连接的设备"@))
}

fn device_head() -> (r: Element)
    ensures
        r@ == device_head_view(),
{
    Element::bare(ElementType::Div)
        .style(Style::Flex)
        .style(Style::Column)
        .style(Style::Gap(10))
        .child(section_title("已连接的设备"))
}

pub open spec fn refresh_row_view() -> ElementView {
    ElementView::bare(ElementType::Div)
        .style(Style::MarginTop(6))
        .child(primary_button_view("刷新设备并重新注册"@).on(UiEvent::Click, EVENT_REFRESH_DEVICES@))
}

fn refresh_row() -> (r: Element)
    ensures
        r@ == refresh_row_view(),
{
    Element::bare(ElementType::Div)
        .style(Style::MarginTop(6))
        .child(primary_button("刷新设备并重新注册").on(UiEvent::Click, EVENT_REFRESH_DEVICES))
}

/// One row per device, under `head`.
pub open spec fn device_rows(head: ElementView, devices: Seq<(String, String)>) -> ElementView
    decreases devices.len(),
{
    if devices.len() == 0 {
        head
    } else {
        device_rows(head, devices.drop_last()).child(
            device_row_view(devices.last().1@, devices.last().0@),
        )
    }
}

/// The connected devices.
pub open spec fn device_section_view(devices: Seq<(String, String)>) -> ElementView {
    (if devices.len() == 0 {
        device_head_view().child(
            section_hint_view(
                "当前没有连接的设备。请先在 AstroBox 中连接小米手环 / 手表，再点击下方按钮刷新。"@,
            ),
        )
    } else {
        device_rows(device_head_view(), devices)
    }).child(refresh_row_view())
}

fn device_section(devices: &Vec<(String, String)>) -> (r: Element)
    ensures
        r@ == device_section_view(devices@),
{
    let mut col = device_head();
    if devices.len() == 0 {
        col = col.child(
            section_hint(
                "当前没有连接的设备。请先在 AstroBox 中连接小米手环 / 手表，再点击下方按钮刷新。",
            ),
        );
    } else {
        let mut i: usize = 0;
        while i < devices.len()
            invariant
                i <= devices@.len(),
                col@ == device_rows(device_head_view(), devices@.take(i as int)),
            decreases devices.len() - i,
        {
            assert(devices@.take(i + 1).drop_last() =~= devices@.take(i as int));
            col = col.child(device_row(devices[i].1.as_str(), devices[i].0.as_str()));
            i = i + 1;
        }
        assert(devices@.take(i as int) =~= devices@);
    }
    col.child(refresh_row())
}

// ---------------------------------------------------------------- installed apps

/// One installed app, with a button to monitor it where it is not monitored.
pub open spec fn installed_app_row_view(app: InstalledApp, monitored: bool) -> ElementView {
    let shown = if (app.app_name@.len() == 0) {
        app.package_name@
    } else {
        app.app_name@
    };
    let name_el = ElementView::new(ElementType::P, shown)
        .style(Style::Size(14))
        .style(Style::TextColor(COLOR_TEXT_PRIMARY));
    let origin = if (app.device_name@.len() == 0) {
        app.addr@
    } else {
        app.device_name@
    };
    let meta = (app.package_name@ + "  ·  v"@ + text::decimal(app.version_code as nat) + "  ·  "@ + origin);
    let meta_el = ElementView::new(ElementType::P, meta)
        .style(Style::Size(11))
        .style(Style::TextColor(COLOR_TEXT_MUTED));
    let info_col = ElementView::bare(ElementType::Div)
        .style(Style::Flex)
        .style(Style::Column)
        .style(Style::Gap(2))
        .child(name_el)
        .child(meta_el)
        .style(Style::FlexGrow(1000));
    let pick_event = (PKG_PICK_PREFIX@ + app.package_name@);
    let action = if monitored {
        ElementView::new(ElementType::P, "已在监听"@)
            .style(Style::Size(12))
            .style(Style::TextColor(COLOR_TEXT_SUCCESS))
    } else {
        primary_button_view("监听"@).on(UiEvent::Click, pick_event)
    };
    ElementView::bare(ElementType::Div)
        .style(Style::Flex)
        .style(Style::Row)
        .style(Style::AlignCenter)
        .style(Style::Gap(16))
        .style(Style::PaddingTop(6))
        .style(Style::PaddingBottom(6))
        .child(info_col)
        .child(action)
}

/// One installed app, with a button to monitor it where it is not monitored.
fn installed_app_row(app: &InstalledApp, monitored: bool) -> (r: Element)
    ensures
        r@ == installed_app_row_view(*app, monitored),
{
    let shown = if app.app_name.as_str().is_empty() {
        app.package_name.as_str()
    } else {
        app.app_name.as_str()
    };
    let name_el = Element::new(ElementType::P, shown)
        .style(Style::Size(14))
        .style(Style::TextColor(COLOR_TEXT_PRIMARY));
    let origin = if app.device_name.as_str().is_empty() {
        app.addr.as_str()
    } else {
        app.device_name.as_str()
    };
    let meta = text::cat(text::cat(text::cat(text::cat(app.package_name.as_str(), "  ·  v").as_str(), text::u64_text(app.version_code as u64).as_str()).as_str(), "  ·  ").as_str(), origin);
    let meta_el = Element::new(ElementType::P, meta.as_str())
        .style(Style::Size(11))
        .style(Style::TextColor(COLOR_TEXT_MUTED));
    let info_col = Element::bare(ElementType::Div)
        .style(Style::Flex)
        .style(Style::Column)
        .style(Style::Gap(2))
        .child(name_el)
        .child(meta_el)
        .style(Style::FlexGrow(1000));
    let pick_event = text::cat(PKG_PICK_PREFIX, app.package_name.as_str());
    let action = if monitored {
        Element::new(ElementType::P, "已在监听")
            .style(Style::Size(12))
            .style(Style::TextColor(COLOR_TEXT_SUCCESS))
    } else {
        primary_button("监听").on(UiEvent::Click, pick_event.as_str())
    };
    Element::bare(ElementType::Div)
        .style(Style::Flex)
        .style(Style::Row)
        .style(Style::AlignCenter)
        .style(Style::Gap(16))
        .style(Style::PaddingTop(6))
        .style(Style::PaddingBottom(6))
        .child(info_col)
        .child(action)
}

pub open spec fn installed_head_view() -> ElementView {
    ElementView::bare(ElementType::Div)
        .style(Style::Flex)
        .style(Style::Column)
        .style(Style::Gap(10))
        .child(section_title_view("设备上的快应用"@))
        .child(section_hint_view("下面是当前已连接设备上所有第三方快应用。点击「监听」即开始为它转发联网请求。"@))
}

fn installed_head() -> (r: Element)
    ensures
        r@ == installed_head_view(),
{
    Element::bare(ElementType::Div)
        .style(Style::Flex)
        .style(Style::Column)
        .style(Style::Gap(10))
        .child(section_title("设备上的快应用"))
        .child(section_hint("下面是当前已连接设备上所有第三方快应用。点击「监听」即开始为它转发联网请求。"))
}

/// One row per installed app, with dividers between them.
pub open spec fn installed_rows(
    head: ElementView,
    apps: Seq<InstalledApp>,
    monitored: Map<Seq<char>, state::AppView>,
) -> ElementView
    decreases apps.len(),
{
    if apps.len() == 0 {
        head
    } else {
        let before = installed_rows(head, apps.drop_last(), monitored);
        let before = if apps.len() > 1 {
            before.child(thin_divider_view())
        } else {
            before
        };
        before.child(
            installed_app_row_view(
                apps.last(),
                monitored.dom().contains(apps.last().package_name@),
            ),
        )
    }
}

/// The apps on the devices.
pub open spec fn installed_apps_section_view(
    apps: Seq<InstalledApp>,
    monitored: Map<Seq<char>, state::AppView>,
) -> ElementView {
    if apps.len() == 0 {
        installed_head_view().child(
            section_hint_view("尚未读到设备应用列表，请确认设备已连接。"@),
        )
    } else {
        installed_rows(installed_head_view(), apps, monitored)
    }
}

fn installed_apps_section(s: &PluginState) -> (r: Element)
    requires
        s.wf(),
    ensures
        r@ == installed_apps_section_view(s.installed_apps@, s.monitored()),
{
    let apps = &s.installed_apps;
    let mut col = installed_head();
    if apps.len() == 0 {
        return col.child(section_hint("尚未读到设备应用列表，请确认设备已连接。"));
    }
    let mut i: usize = 0;
    while i < apps.len()
        invariant
            i <= apps@.len(),
            s.wf(),
            *apps == s.installed_apps,
            col@ == installed_rows(
                installed_head_view(),
                apps@.take(i as int),
                s.monitored(),
            ),
        decreases apps.len() - i,
    {
        assert(apps@.take(i + 1).drop_last() =~= apps@.take(i as int));
        let monitored = state::is_monitored(s, apps[i].package_name.as_str());
        if i > 0 {
            col = col.child(thin_divider());
        }
        col = col.child(installed_app_row(&apps[i], monitored));
        i = i + 1;
    }
    assert(apps@.take(i as int) =~= apps@);
    col
}

/// The form for adding a package by hand.
pub open spec fn add_pkg_section_view(pending: Seq<char>) -> ElementView {
    let input = ElementView::bare(ElementType::Input)
        .prop("placeholder"@, "手动输入包名，例如 com.your.app"@)
        .prop("value"@, pending)
        .style(Style::FlexGrow(1000))
        .style(Style::Padding(10))
        .style(Style::TextColor(COLOR_TEXT_PRIMARY))
        .on(UiEvent::Input, EVENT_ADD_PKG_INPUT@);
    let submit = primary_button_view("添加"@).on(UiEvent::Click, EVENT_ADD_PKG_SUBMIT@);
    let row = ElementView::bare(ElementType::Div)
        .style(Style::Flex)
        .style(Style::Row)
        .style(Style::Gap(10))
        .style(Style::AlignCenter)
        .child(input)
        .child(submit);
    ElementView::bare(ElementType::Div)
        .style(Style::Flex)
        .style(Style::Column)
        .style(Style::Gap(10))
        .child(section_title_view("手动添加包名"@))
        .child(section_hint_view("若设备应用列表里没有目标快应用，可在此手动填写包名后添加。"@))
        .child(row)
}

/// The form for adding a package by hand.
fn add_pkg_section(pending: &str) -> (r: Element)
    ensures
        r@ == add_pkg_section_view(pending@),
{
    let input = Element::bare(ElementType::Input)
        .prop("placeholder", "手动输入包名，例如 com.your.app")
        .prop("value", pending)
        .style(Style::FlexGrow(1000))
        .style(Style::Padding(10))
        .style(Style::TextColor(COLOR_TEXT_PRIMARY))
        .on(UiEvent::Input, EVENT_ADD_PKG_INPUT);
    let submit = primary_button("添加").on(UiEvent::Click, EVENT_ADD_PKG_SUBMIT);
    let row = Element::bare(ElementType::Div)
        .style(Style::Flex)
        .style(Style::Row)
        .style(Style::Gap(10))
        .style(Style::AlignCenter)
        .child(input)
        .child(submit);
    Element::bare(ElementType::Div)
        .style(Style::Flex)
        .style(Style::Column)
        .style(Style::Gap(10))
        .child(section_title("手动添加包名"))
        .child(section_hint("若设备应用列表里没有目标快应用，可在此手动填写包名后添加。"))
        .child(row)
}

// ---------------------------------------------------------------- monitored apps

/// A number below one hundred with two digits.
pub open spec fn two_digits(n: nat) -> Seq<char> {
    seq![text::digit_char(n / 10), text::digit_char(n % 10)]
}

fn pad2(n: u64) -> (r: String)
    requires
        n < 100,
    ensures
        r@ == two_digits(n as nat),
{
    if n < 10 {
        let d = text::u64_text(n);
        let r = text::cat("0", d.as_str());
        proof {
            reveal_strlit("0");
            assert(r@ =~= two_digits(n as nat));
        }
        r
    } else {
        let r = text::u64_text(n);
        proof {
            assert(text::decimal((n / 10) as nat) =~= seq![text::digit_char((n / 10) as nat)]);
            assert(r@ =~= two_digits(n as nat));
        }
        r
    }
}

/// The time of day, in UTC, of a moment in milliseconds.
pub open spec fn clock_text(unix_ms: Option<u128>) -> Seq<char> {
    match unix_ms {
        None => "—"@,
        Some(ms) => {
            let secs = ms as nat / 1000;
            two_digits(secs / 3600 % 24) + ":"@ + two_digits(secs / 60 % 60) + ":"@ + two_digits(
                secs % 60,
            ) + " UTC"@
        },
    }
}

pub fn format_time(unix_ms: Option<u128>) -> (r: String)
    ensures
        r@ == clock_text(unix_ms),
{
    match unix_ms {
        None => "—".to_owned(),
        Some(ms) => {
            let secs: u128 = ms / 1000;
            let h = pad2((secs / 3600 % 24) as u64);
            let m = pad2((secs / 60 % 60) as u64);
            let s = pad2((secs % 60) as u64);
            let mut out = h;
            out.append(":");
            out.append(m.as_str());
            out.append(":");
            out.append(s.as_str());
            out.append(" UTC");
            out
        },
    }
}

/// One monitored app: its counts and last activity, and the controls for it.
pub open spec fn app_row_view(entry: AppEntry) -> ElementView {
    let pkg_label = ElementView::new(ElementType::P, entry.pkg_name@)
        .style(Style::Size(15))
        .style(Style::TextColor(COLOR_TEXT_PRIMARY));
    let status_color = if entry.enabled {
        COLOR_TEXT_SUCCESS
    } else {
        COLOR_TEXT_DANGER
    };
    let status_word = if entry.enabled {
        "已允许联网"@
    } else {
        "已禁用"@
    };
    let status_label = ElementView::new(ElementType::P, status_word)
        .style(Style::Size(12))
        .style(Style::TextColor(status_color));
    let stats = ("请求 "@ + text::decimal(entry.request_count as nat) + " · 成功 "@ + text::decimal(entry.success_count as nat) + " · 失败 "@ + text::decimal(entry.error_count as nat));
    let stats_el = ElementView::new(ElementType::P, stats)
        .style(Style::Size(12))
        .style(Style::TextColor(COLOR_TEXT_SECONDARY));
    let last_status = text::or_else_text(text::opt_text(entry.last_status), "尚未发起请求"@);
    let last_status_line = ("最近状态: "@ + last_status);
    let last_status_el = ElementView::new(ElementType::P, last_status_line)
        .style(Style::Size(11))
        .style(Style::TextColor(COLOR_TEXT_MUTED));
    let last_url = text::or_else_text(text::opt_text(entry.last_url), "—"@);
    let last_url_line = ("最近 URL: "@ + last_url);
    let last_url_el = ElementView::new(ElementType::P, last_url_line)
        .style(Style::Size(11))
        .style(Style::TextColor(COLOR_TEXT_MUTED));
    let seen = clock_text(entry.last_seen_unix_ms);
    let last_addr = text::or_else_text(text::opt_text(entry.last_addr), "—"@);
    let last_seen_line = ("最近活动: "@ + seen + "  ·  设备: "@ + last_addr);
    let last_seen_el = ElementView::new(ElementType::P, last_seen_line)
        .style(Style::Size(11))
        .style(Style::TextColor(COLOR_TEXT_MUTED));
    let title_row = ElementView::bare(ElementType::Div)
        .style(Style::Flex)
        .style(Style::Row)
        .style(Style::AlignCenter)
        .style(Style::Gap(10))
        .child(pkg_label)
        .child(status_label);
    let info_col = ElementView::bare(ElementType::Div)
        .style(Style::Flex)
        .style(Style::Column)
        .style(Style::Gap(4))
        .child(title_row)
        .child(stats_el)
        .child(last_status_el)
        .child(last_url_el)
        .child(last_seen_el)
        .style(Style::FlexGrow(1000));
    let toggle_event = (PKG_TOGGLE_PREFIX@ + entry.pkg_name@);
    let checked = if entry.enabled {
        "true"@
    } else {
        "false"@
    };
    let switch = ElementView::bare(ElementType::Switch)
        .prop("checked"@, checked)
        .on(UiEvent::Change, toggle_event);
    let reregister_event = (PKG_REREGISTER_PREFIX@ + entry.pkg_name@);
    let reregister_btn = ghost_button_view("重新注册"@).on(UiEvent::Click, reregister_event);
    let remove_event = (PKG_REMOVE_PREFIX@ + entry.pkg_name@);
    let remove_btn = danger_button_view("移除"@).on(UiEvent::Click, remove_event);
    let actions = ElementView::bare(ElementType::Div)
        .style(Style::Flex)
        .style(Style::Column)
        .style(Style::Gap(8))
        .style(Style::AlignEnd)
        .child(switch)
        .child(reregister_btn)
        .child(remove_btn);
    ElementView::bare(ElementType::Div)
        .style(Style::Flex)
        .style(Style::Row)
        .style(Style::AlignStart)
        .style(Style::Gap(16))
        .style(Style::PaddingTop(8))
        .style(Style::PaddingBottom(8))
        .child(info_col)
        .child(actions)
}

/// One monitored app: its counts and last activity, and the controls for it.
fn app_row(entry: &AppEntry) -> (r: Element)
    ensures
        r@ == app_row_view(*entry),
{
    let pkg_label = Element::new(ElementType::P, entry.pkg_name.as_str())
        .style(Style::Size(15))
        .style(Style::TextColor(COLOR_TEXT_PRIMARY));
    let status_color = if entry.enabled {
        COLOR_TEXT_SUCCESS
    } else {
        COLOR_TEXT_DANGER
    };
    let status_word = if entry.enabled {
        "已允许联网"
    } else {
        "已禁用"
    };
    let status_label = Element::new(ElementType::P, status_word)
        .style(Style::Size(12))
        .style(Style::TextColor(status_color));
    let stats = text::cat(text::cat(text::cat(text::cat(text::cat("请求 ", text::u64_text(entry.request_count as u64).as_str()).as_str(), " · 成功 ").as_str(), text::u64_text(entry.success_count as u64).as_str()).as_str(), " · 失败 ").as_str(), text::u64_text(entry.error_count as u64).as_str());
    let stats_el = Element::new(ElementType::P, stats.as_str())
        .style(Style::Size(12))
        .style(Style::TextColor(COLOR_TEXT_SECONDARY));
    let last_status = text::or_text(&entry.last_status, "尚未发起请求");
    let last_status_line = text::cat("最近状态: ", last_status.as_str());
    let last_status_el = Element::new(ElementType::P, last_status_line.as_str())
        .style(Style::Size(11))
        .style(Style::TextColor(COLOR_TEXT_MUTED));
    let last_url = text::or_text(&entry.last_url, "—");
    let last_url_line = text::cat("最近 URL: ", last_url.as_str());
    let last_url_el = Element::new(ElementType::P, last_url_line.as_str())
        .style(Style::Size(11))
        .style(Style::TextColor(COLOR_TEXT_MUTED));
    let seen = format_time(entry.last_seen_unix_ms);
    let last_addr = text::or_text(&entry.last_addr, "—");
    let last_seen_line = text::cat(text::cat(text::cat("最近活动: ", seen.as_str()).as_str(), "  ·  设备: ").as_str(), last_addr.as_str());
    let last_seen_el = Element::new(ElementType::P, last_seen_line.as_str())
        .style(Style::Size(11))
        .style(Style::TextColor(COLOR_TEXT_MUTED));
    let title_row = Element::bare(ElementType::Div)
        .style(Style::Flex)
        .style(Style::Row)
        .style(Style::AlignCenter)
        .style(Style::Gap(10))
        .child(pkg_label)
        .child(status_label);
    let info_col = Element::bare(ElementType::Div)
        .style(Style::Flex)
        .style(Style::Column)
        .style(Style::Gap(4))
        .child(title_row)
        .child(stats_el)
        .child(last_status_el)
        .child(last_url_el)
        .child(last_seen_el)
        .style(Style::FlexGrow(1000));
    let toggle_event = text::cat(PKG_TOGGLE_PREFIX, entry.pkg_name.as_str());
    let checked = if entry.enabled {
        "true"
    } else {
        "false"
    };
    let switch = Element::bare(ElementType::Switch)
        .prop("checked", checked)
        .on(UiEvent::Change, toggle_event.as_str());
    let reregister_event = text::cat(PKG_REREGISTER_PREFIX, entry.pkg_name.as_str());
    let reregister_btn = ghost_button("重新注册").on(UiEvent::Click, reregister_event.as_str());
    let remove_event = text::cat(PKG_REMOVE_PREFIX, entry.pkg_name.as_str());
    let remove_btn = danger_button("移除").on(UiEvent::Click, remove_event.as_str());
    let actions = Element::bare(ElementType::Div)
        .style(Style::Flex)
        .style(Style::Column)
        .style(Style::Gap(8))
        .style(Style::AlignEnd)
        .child(switch)
        .child(reregister_btn)
        .child(remove_btn);
    Element::bare(ElementType::Div)
        .style(Style::Flex)
        .style(Style::Row)
        .style(Style::AlignStart)
        .style(Style::Gap(16))
        .style(Style::PaddingTop(8))
        .style(Style::PaddingBottom(8))
        .child(info_col)
        .child(actions)
}

pub open spec fn apps_head_view() -> ElementView {
    ElementView::bare(ElementType::Div)
        .style(Style::Flex)
        .style(Style::Column)
        .style(Style::Gap(10))
        .child(section_title_view("当前监听的快应用"@))
        .child(section_hint_view("下列快应用已被授权通过本插件联网。关闭开关即立即禁用，点击「移除」则停止监听。"@))
}

fn apps_head() -> (r: Element)
    ensures
        r@ == apps_head_view(),
{
    Element::bare(ElementType::Div)
        .style(Style::Flex)
        .style(Style::Column)
        .style(Style::Gap(10))
        .child(section_title("当前监听的快应用"))
        .child(section_hint("下列快应用已被授权通过本插件联网。关闭开关即立即禁用，点击「移除」则停止监听。"))
}

/// One row per monitored app, with dividers between them.
pub open spec fn app_rows(head: ElementView, apps: Seq<AppEntry>) -> ElementView
    decreases apps.len(),
{
    if apps.len() == 0 {
        head
    } else {
        let before = app_rows(head, apps.drop_last());
        let before = if apps.len() > 1 {
            before.child(thin_divider_view())
        } else {
            before
        };
        before.child(app_row_view(apps.last()))
    }
}

/// The monitored apps.
pub open spec fn apps_section_view(apps: Seq<AppEntry>) -> ElementView {
    if apps.len() == 0 {
        apps_head_view().child(
            section_hint_view(
                "尚未添加监听项。从上方列表中点「监听」，或手动填入包名后添加。"@,
            ),
        )
    } else {
        app_rows(apps_head_view(), apps)
    }
}

fn apps_section(apps: &Vec<AppEntry>) -> (r: Element)
    ensures
        r@ == apps_section_view(apps@),
{
    let mut col = apps_head();
    if apps.len() == 0 {
        return col.child(
            section_hint("尚未添加监听项。从上方列表中点「监听」，或手动填入包名后添加。"),
        );
    }
    let mut i: usize = 0;
    while i < apps.len()
        invariant
            i <= apps@.len(),
            col@ == app_rows(apps_head_view(), apps@.take(i as int)),
        decreases apps.len() - i,
    {
        assert(apps@.take(i + 1).drop_last() =~= apps@.take(i as int));
        if i > 0 {
            col = col.child(thin_divider());
        }
        col = col.child(app_row(&apps[i]));
        i = i + 1;
    }
    assert(apps@.take(i as int) =~= apps@);
    col
}

// ---------------------------------------------------------------- page

/// The whole page.
pub open spec fn root_view(s: PluginState) -> ElementView {
    let root = ElementView::bare(ElementType::Div).style(Style::Flex).style(Style::Column).style(
        Style::WidthFull,
    ).style(Style::Padding(28)).style(Style::Gap(24)).child(
        header_section_view(
            s.connected_devices@.len() as usize,
            s.apps@.len() as usize,
            s.installed_apps@.len() as usize,
        ),
    );
    let root = match s.last_notice {
        Some(text) => root.child(notice_line_view(text@)),
        None => root,
    };
    root.child(divider_view()).child(device_section_view(s.connected_devices@)).child(
        divider_view(),
    ).child(installed_apps_section_view(s.installed_apps@, s.monitored())).child(
        divider_view(),
    ).child(add_pkg_section_view(s.pending_add_pkg@)).child(divider_view()).child(
        apps_section_view(s.apps@),
    )
}

/// Builds the whole page.
pub fn build_root(s: &PluginState) -> (r: Element)
    requires
        s.wf(),
    ensures
        r@ == root_view(*s),
{
    let mut root = Element::bare(ElementType::Div).style(Style::Flex).style(Style::Column).style(
        Style::WidthFull,
    ).style(Style::Padding(28)).style(Style::Gap(24));
    root = root.child(
        header_section(s.connected_devices.len(), s.apps.len(), s.installed_apps.len()),
    );
    if let Some(text) = &s.last_notice {
        root = root.child(notice_line(text.as_str()));
    }
    root = root.child(divider());
    root = root.child(device_section(&s.connected_devices));
    root = root.child(divider());
    root = root.child(installed_apps_section(s));
    root = root.child(divider());
    root = root.child(add_pkg_section(s.pending_add_pkg.as_str()));
    root = root.child(divider());
    root.child(apps_section(&s.apps))
}

/// Where the page is to be rendered, and the page. Nothing before the host named
/// an element.
pub fn render_without_auto_refresh(s: &PluginState) -> (r: Option<(String, Element)>)
    requires
        s.wf(),
    ensures
        match r {
            Some((id, e)) => s.root_element_id == Some(id) && e@ == root_view(*s),
            None => s.root_element_id is None,
        },
{
    match state::root(s) {
        Some(id) => Some((id, build_root(s))),
        None => None,
    }
}

/// Takes the element in which the host shows the page.
pub fn render_main_ui(s: &mut PluginState, element_id: &str) -> (r: Option<(String, Element)>)
    requires
        old(s).wf(),
    ensures
        final(s).wf(),
        final(s).same_but_root(*old(s)),
        text::opt_text(final(s).root_element_id) == Some(element_id@),
        match r {
            Some((id, e)) => id@ == element_id@ && e@ == root_view(*final(s)),
            None => false,
        },
{
    state::set_root(s, element_id);
    render_without_auto_refresh(s)
}

// ---------------------------------------------------------------- events

/// What an event of the page asks for.
pub enum UiAction {
    /// Monitor a package and register it on the devices.
    Pick(String),
    /// Allow or forbid a package the network.
    Toggle(String),
    /// Stop monitoring a package.
    Remove(String),
    /// Register a package on the devices again.
    Reregister(String),
    /// The text of the package field changed.
    AddInput,
    /// Monitor the package in the field.
    AddSubmit,
    /// Read the devices and their apps again.
    RefreshDevices,
    ClearNotice,
    /// No event of this page.
    Unknown,
}

/// Whether an action is what an event id asks for.
pub open spec fn asks(id: Seq<char>, a: UiAction) -> bool {
    if text::begins_with(id, PKG_PICK_PREFIX@) {
        a matches UiAction::Pick(pkg) && pkg@ == id.skip(PKG_PICK_PREFIX@.len() as int)
    } else if text::begins_with(id, PKG_TOGGLE_PREFIX@) {
        a matches UiAction::Toggle(pkg) && pkg@ == id.skip(PKG_TOGGLE_PREFIX@.len() as int)
    } else if text::begins_with(id, PKG_REMOVE_PREFIX@) {
        a matches UiAction::Remove(pkg) && pkg@ == id.skip(PKG_REMOVE_PREFIX@.len() as int)
    } else if text::begins_with(id, PKG_REREGISTER_PREFIX@) {
        a matches UiAction::Reregister(pkg) && pkg@ == id.skip(PKG_REREGISTER_PREFIX@.len() as int)
    } else if id == EVENT_ADD_PKG_INPUT@ {
        a is AddInput
    } else if id == EVENT_ADD_PKG_SUBMIT@ {
        a is AddSubmit
    } else if id == EVENT_REFRESH_DEVICES@ {
        a is RefreshDevices
    } else if id == EVENT_CLEAR_NOTICE@ {
        a is ClearNotice
    } else {
        a is Unknown
    }
}

/// Reads an event id.
pub fn read_event(event_id: &str) -> (a: UiAction)
    ensures
        asks(event_id@, a),
{
    if let Some(pkg) = text::strip_prefix(event_id, PKG_PICK_PREFIX) {
        return UiAction::Pick(pkg);
    }
    if let Some(pkg) = text::strip_prefix(event_id, PKG_TOGGLE_PREFIX) {
        return UiAction::Toggle(pkg);
    }
    if let Some(pkg) = text::strip_prefix(event_id, PKG_REMOVE_PREFIX) {
        return UiAction::Remove(pkg);
    }
    if let Some(pkg) = text::strip_prefix(event_id, PKG_REREGISTER_PREFIX) {
        return UiAction::Reregister(pkg);
    }
    if str_eq(event_id, EVENT_ADD_PKG_INPUT) {
        UiAction::AddInput
    } else if str_eq(event_id, EVENT_ADD_PKG_SUBMIT) {
        UiAction::AddSubmit
    } else if str_eq(event_id, EVENT_REFRESH_DEVICES) {
        UiAction::RefreshDevices
    } else if str_eq(event_id, EVENT_CLEAR_NOTICE) {
        UiAction::ClearNotice
    } else {
        UiAction::Unknown
    }
}

/// What the host is to do after an event, before the page is rendered.
pub enum UiEffect {
    /// Nothing: the event is not one of the page.
    Ignore,
    /// Register a package on the devices, report how many took it to
    /// [`registered`], and render with a refresh.
    Register(String),
    /// Read the devices and their apps, register every monitored package, report
    /// to [`refreshed`], and render without a refresh.
    Refresh,
    /// Render with a refresh.
    Rerender,
    /// Render without a refresh.
    Render,
}

/// The package name in the field.
pub open spec fn pending_pkg(s: PluginState) -> Seq<char> {
    text::trimmed(s.pending_add_pkg@)
}

/// The notices of the page.
pub open spec fn toggled_notice(enabled: bool, pkg: Seq<char>) -> Seq<char> {
    "已"@ + (if enabled {
        "启用"@
    } else {
        "禁用"@
    }) + "快应用 "@ + pkg + " 的联网能力"@
}

/// Handles an event of the page, with the value and the check mark that came with
/// it. Says what the host is to do; the list of apps is to be saved wherever it
/// changed.
pub fn ui_event_processor(
    s: &mut PluginState,
    event_id: &str,
    value: Option<String>,
    checked: Option<bool>,
) -> (effect: UiEffect)
    requires
        old(s).wf(),
    ensures
        final(s).wf(),
        final(s).connected_devices == old(s).connected_devices,
        final(s).installed_apps == old(s).installed_apps,
        final(s).root_element_id == old(s).root_element_id,
        final(s).last_auto_refresh_ms == old(s).last_auto_refresh_ms,
        forall|a: UiAction| #[trigger]
            asks(event_id@, a) ==> match a {
                UiAction::Pick(pkg) => {
                    &&& effect matches UiEffect::Register(p) && p@ == pkg@
                    &&& final(s).monitored() == old(s).monitored().insert(
                        pkg@,
                        old(s).app_or_new(pkg@),
                    )
                    &&& final(s).last_notice == old(s).last_notice
                    &&& final(s).pending_add_pkg == old(s).pending_add_pkg
                    &&& final(s).render_tick == old(s).render_tick
                },
                UiAction::Toggle(pkg) => {
                    let enabled = checked != Some(false);
                    &&& effect is Rerender
                    &&& final(s).monitored() == old(s).monitored().insert(
                        pkg@,
                        state::AppView { enabled, ..old(s).app_or_new(pkg@) },
                    )
                    &&& text::opt_text(final(s).last_notice) == Some(toggled_notice(enabled, pkg@))
                    &&& final(s).pending_add_pkg == old(s).pending_add_pkg
                    &&& final(s).render_tick == state::tick_after(old(s).render_tick, 2)
                },
                UiAction::Remove(pkg) => {
                    &&& effect is Rerender
                    &&& final(s).monitored() == old(s).monitored().remove(pkg@)
                    &&& text::opt_text(final(s).last_notice) == Some("已从列表移除 "@ + pkg@)
                    &&& final(s).pending_add_pkg == old(s).pending_add_pkg
                    &&& final(s).render_tick == state::tick_after(old(s).render_tick, 2)
                },
                UiAction::Reregister(pkg) => {
                    &&& effect matches UiEffect::Register(p) && p@ == pkg@
                    &&& *final(s) == *old(s)
                },
                UiAction::AddInput => {
                    &&& effect is Render
                    &&& final(s).monitored() == old(s).monitored()
                    &&& final(s).pending_add_pkg@ == (match value {
                        Some(v) => v@,
                        None => Seq::empty(),
                    })
                    &&& final(s).last_notice == old(s).last_notice
                    &&& final(s).render_tick == old(s).render_tick
                },
                UiAction::AddSubmit => {
                    let pkg = pending_pkg(*old(s));
                    &&& final(s).pending_add_pkg@.len() == 0
                    &&& if pkg.len() == 0 {
                        &&& effect is Rerender
                        &&& final(s).monitored() == old(s).monitored()
                        &&& text::opt_text(final(s).last_notice) == Some(
                            "请输入要监听的快应用包名"@,
                        )
                        &&& final(s).render_tick == state::next_tick(old(s).render_tick)
                    } else {
                        &&& effect matches UiEffect::Register(p) && p@ == pkg
                        &&& final(s).monitored() == old(s).monitored().insert(
                            pkg,
                            old(s).app_or_new(pkg),
                        )
                        &&& final(s).last_notice == old(s).last_notice
                        &&& final(s).render_tick == old(s).render_tick
                    }
                },
                UiAction::RefreshDevices => effect is Refresh && *final(s) == *old(s),
                UiAction::ClearNotice => {
                    &&& effect is Rerender
                    &&& *final(s) == (PluginState { last_notice: None, ..*old(s) })
                },
                UiAction::Unknown => effect is Ignore && *final(s) == *old(s),
            },
{
    let action = read_event(event_id);
    proof {
        reveal_with_fuel(state::tick_after, 3);
    }
    match action {
        UiAction::Pick(pkg) => {
            let _ = state::ensure_app(s, pkg.as_str());
            UiEffect::Register(pkg)
        },
        UiAction::Toggle(pkg) => {
            let enabled = match checked {
                Some(c) => c,
                None => true,
            };
            state::set_enabled(s, pkg.as_str(), enabled);
            let word = if enabled {
                "启用"
            } else {
                "禁用"
            };
            let mut note = text::cat3("已", word, "快应用 ");
            note.append(pkg.as_str());
            note.append(" 的联网能力");
            state::set_notice(s, note);
            UiEffect::Rerender
        },
        UiAction::Remove(pkg) => {
            let _ = state::remove_app(s, pkg.as_str());
            let note = text::cat("已从列表移除 ", pkg.as_str());
            state::set_notice(s, note);
            UiEffect::Rerender
        },
        UiAction::Reregister(pkg) => UiEffect::Register(pkg),
        UiAction::AddInput => {
            let v = match value {
                Some(v) => v,
                None => String::new(),
            };
            assert(value is None ==> v@ =~= Seq::empty());
            state::set_pending_add(s, v);
            UiEffect::Render
        },
        UiAction::AddSubmit => {
            let typed = state::take_pending_add(s);
            let pkg = text::trim(typed.as_str());
            if pkg.as_str().is_empty() {
                state::set_notice(s, "请输入要监听的快应用包名".to_owned());
                UiEffect::Rerender
            } else {
                let _ = state::ensure_app(s, pkg.as_str());
                UiEffect::Register(pkg)
            }
        },
        UiAction::RefreshDevices => UiEffect::Refresh,
        UiAction::ClearNotice => {
            state::clear_notice(s);
            UiEffect::Rerender
        },
        UiAction::Unknown => UiEffect::Ignore,
    }
}

/// Notes on how many devices a package was registered after an event.
pub fn registered(s: &mut PluginState, event_id: &str, pkg: &str, count: usize)
    ensures
        *final(s) == (PluginState {
            last_notice: final(s).last_notice,
            render_tick: state::next_tick(old(s).render_tick),
            ..*old(s)
        }),
        text::opt_text(final(s).last_notice) == Some(
            if text::begins_with(event_id@, PKG_PICK_PREFIX@) {
                "已开始监听 "@ + pkg@ + "（在 "@ + text::decimal(count as nat) + " 台设备上注册接收器）"@
            } else if text::begins_with(event_id@, PKG_REREGISTER_PREFIX@) {
                "已为 "@ + pkg@ + " 在 "@ + text::decimal(count as nat) + " 台设备上重新注册接收器"@
            } else {
                "已新增监听 "@ + pkg@ + "，注册了 "@ + text::decimal(count as nat) + " 台设备"@
            },
        ),
{
    let n = text::u64_text(count as u64);
    let note = if text::starts_with(event_id, PKG_PICK_PREFIX) {
        let mut m = text::cat3("已开始监听 ", pkg, "（在 ");
        m.append(n.as_str());
        m.append(" 台设备上注册接收器）");
        m
    } else if text::starts_with(event_id, PKG_REREGISTER_PREFIX) {
        let mut m = text::cat3("已为 ", pkg, " 在 ");
        m.append(n.as_str());
        m.append(" 台设备上重新注册接收器");
        m
    } else {
        let mut m = text::cat3("已新增监听 ", pkg, "，注册了 ");
        m.append(n.as_str());
        m.append(" 台设备");
        m
    };
    state::set_notice(s, note);
}

/// Notes what a refresh found.
pub fn refreshed(s: &mut PluginState)
    ensures
        *final(s) == (PluginState {
            last_notice: final(s).last_notice,
            render_tick: state::next_tick(old(s).render_tick),
            ..*old(s)
        }),
        text::opt_text(final(s).last_notice) == Some(
            "已刷新：连接 "@ + text::decimal(old(s).connected_devices@.len()) + " 台设备 · 共 "@
                + text::decimal(old(s).installed_apps@.len()) + " 个第三方应用 · 重注册 "@
                + text::decimal(old(s).apps@.len()) + " 个已监听包"@,
        ),
{
    let a = text::u64_text(s.connected_devices.len() as u64);
    let b = text::u64_text(s.installed_apps.len() as u64);
    let c = text::u64_text(s.apps.len() as u64);
    let mut note = text::cat3("已刷新：连接 ", a.as_str(), " 台设备 · 共 ");
    note.append(b.as_str());
    note.append(" 个第三方应用 · 重注册 ");
    note.append(c.as_str());
    note.append(" 个已监听包");
    state::set_notice(s, note);
}

// ---------------------------------------------------------------- laws

proof fn lemma_prefixed(prefix: Seq<char>, rest: Seq<char>)
    ensures
        text::begins_with(prefix + rest, prefix),
        (prefix + rest).skip(prefix.len() as int) == rest,
{
    assert((prefix + rest).subrange(0, prefix.len() as int) =~= prefix);
    assert((prefix + rest).skip(prefix.len() as int) =~= rest);
}

proof fn lemma_differs(a: Seq<char>, b: Seq<char>, rest: Seq<char>, i: int)
    requires
        0 <= i < a.len(),
        i < b.len(),
        a[i] != b[i],
    ensures
        !text::begins_with(a + rest, b),
{
    if text::begins_with(a + rest, b) {
        assert((a + rest).subrange(0, b.len() as int)[i] == b[i]);
    }
}

/// The event ids that the page puts on its controls name their package again when
/// they come back, whatever the package is called.
pub proof fn generated_ids_are_understood(pkg: Seq<char>, a: UiAction)
    ensures
        asks(PKG_PICK_PREFIX@ + pkg, a) <==> (a matches UiAction::Pick(p) && p@ == pkg),
        asks(PKG_TOGGLE_PREFIX@ + pkg, a) <==> (a matches UiAction::Toggle(p) && p@ == pkg),
        asks(PKG_REMOVE_PREFIX@ + pkg, a) <==> (a matches UiAction::Remove(p) && p@ == pkg),
        asks(PKG_REREGISTER_PREFIX@ + pkg, a) <==> (a matches UiAction::Reregister(p) && p@ == pkg),
{
    reveal_strlit("action:pkg.pick:");
    reveal_strlit("toggle:pkg:");
    reveal_strlit("action:pkg.remove:");
    reveal_strlit("action:pkg.reregister:");
    lemma_prefixed(PKG_PICK_PREFIX@, pkg);
    lemma_prefixed(PKG_TOGGLE_PREFIX@, pkg);
    lemma_prefixed(PKG_REMOVE_PREFIX@, pkg);
    lemma_prefixed(PKG_REREGISTER_PREFIX@, pkg);
    lemma_differs(PKG_TOGGLE_PREFIX@, PKG_PICK_PREFIX@, pkg, 0);
    lemma_differs(PKG_REMOVE_PREFIX@, PKG_PICK_PREFIX@, pkg, 11);
    lemma_differs(PKG_REMOVE_PREFIX@, PKG_TOGGLE_PREFIX@, pkg, 0);
    lemma_differs(PKG_REREGISTER_PREFIX@, PKG_PICK_PREFIX@, pkg, 11);
    lemma_differs(PKG_REREGISTER_PREFIX@, PKG_TOGGLE_PREFIX@, pkg, 0);
    lemma_differs(PKG_REREGISTER_PREFIX@, PKG_REMOVE_PREFIX@, pkg, 13);
}

/// A moment is shown as the hours, minutes and seconds of its day.
pub proof fn moments_are_shown_as_on_a_clock(ms: u128)
    ensures
        ({
            let t = clock_text(Some(ms));
            let h = text::digits_value(t.subrange(0, 2));
            let m = text::digits_value(t.subrange(3, 5));
            let s = text::digits_value(t.subrange(6, 8));
            &&& t.len() == 12
            &&& t[2] == ':' && t[5] == ':'
            &&& h < 24 && m < 60 && s < 60
            &&& h * 3600 + m * 60 + s == ms as int / 1000 % 86400
        }),
{
    let secs = ms as nat / 1000;
    let a = two_digits(secs / 3600 % 24);
    let b = two_digits(secs / 60 % 60);
    let c = two_digits(secs % 60);
    lemma_two_digits(secs / 3600 % 24);
    lemma_two_digits(secs / 60 % 60);
    lemma_two_digits(secs % 60);
    lemma_time_of_day(secs);
    lemma_clock_parts(a, b, c);
}

proof fn lemma_time_of_day(secs: nat)
    ensures
        (secs / 3600 % 24) * 3600 + (secs / 60 % 60) * 60 + secs % 60 == secs % 86400,
{
}

proof fn lemma_clock_parts(a: Seq<char>, b: Seq<char>, c: Seq<char>)
    requires
        a.len() == 2,
        b.len() == 2,
        c.len() == 2,
    ensures
        ({
            let t = a + ":"@ + b + ":"@ + c + " UTC"@;
            &&& t.len() == 12
            &&& t[2] == ':' && t[5] == ':'
            &&& t.subrange(0, 2) == a
            &&& t.subrange(3, 5) == b
            &&& t.subrange(6, 8) == c
        }),
{
    let t = a + ":"@ + b + ":"@ + c + " UTC"@;
    reveal_strlit(":");
    reveal_strlit(" UTC");
    assert(t.subrange(0, 2) =~= a);
    assert(t.subrange(3, 5) =~= b);
    assert(t.subrange(6, 8) =~= c);
}

proof fn lemma_two_digits(n: nat)
    requires
        n < 100,
    ensures
        text::digits_value(two_digits(n)) == n,
        two_digits(n).len() == 2,
{
    let s = two_digits(n);
    reveal_with_fuel(text::digits_value, 3);
    assert(s.last() == text::digit_char(n % 10));
    assert(s.drop_last().last() == text::digit_char(n / 10));
    assert(s.drop_last().drop_last().len() == 0);
}

/// The row of a monitored app names it, tells its counts and whether it may use the
/// network, and its controls are about this app.
pub proof fn apps_can_be_controlled(e: AppEntry)
    ensures
        ({
            let row = app_row_view(e);
            &&& row.shows(e.pkg_name@)
            &&& row.shows(
                "请求 "@ + text::decimal(e.request_count as nat) + " · 成功 "@ + text::decimal(
                    e.success_count as nat,
                ) + " · 失败 "@ + text::decimal(e.error_count as nat),
            )
            &&& row.shows(
                if e.enabled {
                    "已允许联网"@
                } else {
                    "已禁用"@
                },
            )
            &&& row.fires(UiEvent::Change, PKG_TOGGLE_PREFIX@ + e.pkg_name@)
            &&& row.fires(UiEvent::Click, PKG_REREGISTER_PREFIX@ + e.pkg_name@)
            &&& row.fires(UiEvent::Click, PKG_REMOVE_PREFIX@ + e.pkg_name@)
            &&& row.children[1].children[0].props == seq![
                (
                    "checked"@,
                    if e.enabled {
                        "true"@
                    } else {
                        "false"@
                    },
                ),
            ]
        }),
{
    let row = app_row_view(e);
    let info = row.children[0];
    let actions = row.children[1];
    let title = info.children[0];
    assert(title.children[0].text == Some(e.pkg_name@));
    assert(title.children[0].shows(e.pkg_name@));
    assert(title.shows(e.pkg_name@));
    assert(info.shows(e.pkg_name@));
    let word = if e.enabled {
        "已允许联网"@
    } else {
        "已禁用"@
    };
    assert(title.children[1].text == Some(word));
    assert(title.children[1].shows(word));
    assert(title.shows(word));
    assert(info.shows(word));
    let stats = "请求 "@ + text::decimal(e.request_count as nat) + " · 成功 "@ + text::decimal(
        e.success_count as nat,
    ) + " · 失败 "@ + text::decimal(e.error_count as nat);
    assert(info.children[1].text == Some(stats));
    assert(info.children[1].shows(stats));
    assert(info.shows(stats));
    let toggle = (UiEvent::Change, PKG_TOGGLE_PREFIX@ + e.pkg_name@);
    let again = (UiEvent::Click, PKG_REREGISTER_PREFIX@ + e.pkg_name@);
    let remove = (UiEvent::Click, PKG_REMOVE_PREFIX@ + e.pkg_name@);
    assert(actions.children[0].events[0] == toggle);
    assert(actions.children[0].fires(toggle.0, toggle.1));
    assert(actions.fires(toggle.0, toggle.1));
    assert(actions.children[1].events[0] == again);
    assert(actions.children[1].fires(again.0, again.1));
    assert(actions.fires(again.0, again.1));
    assert(actions.children[2].events[0] == remove);
    assert(actions.children[2].fires(remove.0, remove.1));
    assert(actions.fires(remove.0, remove.1));
    assert(actions.children[0].props =~= seq![
        (
            "checked"@,
            if e.enabled {
                "true"@
            } else {
                "false"@
            },
        ),
    ]);
}

proof fn lemma_app_rows_len(head: ElementView, apps: Seq<AppEntry>)
    ensures
        app_rows(head, apps).children.len() == head.children.len() + if apps.len() == 0 {
            0
        } else {
            2 * apps.len() - 1
        },
    decreases apps.len(),
{
    if apps.len() > 0 {
        lemma_app_rows_len(head, apps.drop_last());
    }
}

/// Each monitored app has its row, in the order of the list.
pub proof fn each_app_has_its_row(head: ElementView, apps: Seq<AppEntry>, i: int)
    requires
        0 <= i < apps.len(),
    ensures
        app_rows(head, apps).children.len() == head.children.len() + 2 * apps.len() - 1,
        app_rows(head, apps).children[head.children.len() + 2 * i] == app_row_view(apps[i]),
    decreases apps.len(),
{
    let rest = apps.drop_last();
    lemma_app_rows_len(head, rest);
    lemma_app_rows_len(head, apps);
    if i < rest.len() {
        each_app_has_its_row(head, rest, i);
        assert(rest[i] == apps[i]);
    }
}

/// An app on a device is shown by its name, or else by its package, and can be
/// monitored exactly where it is not yet.
pub proof fn installed_apps_can_be_monitored(app: InstalledApp, monitored: bool)
    ensures
        ({
            let row = installed_app_row_view(app, monitored);
            &&& app.app_name@.len() > 0 ==> row.shows(app.app_name@)
            &&& app.app_name@.len() == 0 ==> row.shows(app.package_name@)
            &&& !monitored ==> row.fires(UiEvent::Click, PKG_PICK_PREFIX@ + app.package_name@)
            &&& monitored ==> row.children[1].events.len() == 0
            &&& row.children.len() == 2
        }),
{
    let row = installed_app_row_view(app, monitored);
    let info = row.children[0];
    let shown = if app.app_name@.len() == 0 {
        app.package_name@
    } else {
        app.app_name@
    };
    assert(info.children[0].text == Some(shown));
    assert(info.children[0].shows(shown));
    assert(info.shows(shown));
    if !monitored {
        let pick = (UiEvent::Click, PKG_PICK_PREFIX@ + app.package_name@);
        assert(row.children[1].events[0] == pick);
        assert(row.children[1].fires(pick.0, pick.1));
    }
}

proof fn lemma_installed_rows_len(
    head: ElementView,
    apps: Seq<InstalledApp>,
    monitored: Map<Seq<char>, state::AppView>,
)
    ensures
        installed_rows(head, apps, monitored).children.len() == head.children.len() + if apps.len()
            == 0 {
            0
        } else {
            2 * apps.len() - 1
        },
    decreases apps.len(),
{
    if apps.len() > 0 {
        lemma_installed_rows_len(head, apps.drop_last(), monitored);
    }
}

/// Each app on the devices has its row, in the order of the list.
pub proof fn each_installed_app_has_its_row(
    head: ElementView,
    apps: Seq<InstalledApp>,
    monitored: Map<Seq<char>, state::AppView>,
    i: int,
)
    requires
        0 <= i < apps.len(),
    ensures
        installed_rows(head, apps, monitored).children.len() == head.children.len() + 2 * apps.len()
            - 1,
        installed_rows(head, apps, monitored).children[head.children.len() + 2 * i]
            == installed_app_row_view(apps[i], monitored.dom().contains(apps[i].package_name@)),
    decreases apps.len(),
{
    let rest = apps.drop_last();
    lemma_installed_rows_len(head, rest, monitored);
    lemma_installed_rows_len(head, apps, monitored);
    if i < rest.len() {
        each_installed_app_has_its_row(head, rest, monitored, i);
        assert(rest[i] == apps[i]);
    }
}

/// Each connected device has its row, with its name and its address.
pub proof fn each_device_has_its_row(head: ElementView, devices: Seq<(String, String)>, i: int)
    requires
        0 <= i < devices.len(),
    ensures
        ({
            let e = device_rows(head, devices);
            let row = e.children[head.children.len() + i];
            &&& e.children.len() == head.children.len() + devices.len()
            &&& row.shows(devices[i].0@)
            &&& devices[i].1@.len() > 0 ==> row.shows(devices[i].1@)
        }),
    decreases devices.len(),
{
    let rest = devices.drop_last();
    lemma_device_rows_len(head, rest);
    if i < rest.len() {
        each_device_has_its_row(head, rest, i);
        assert(rest[i] == devices[i]);
    } else {
        let row = device_row_view(devices[i].1@, devices[i].0@);
        assert(device_rows(head, devices).children[head.children.len() + i] == row);
        assert(row.children[1].text == Some(devices[i].0@));
        assert(row.children[1].shows(devices[i].0@));
        if devices[i].1@.len() > 0 {
            assert(row.children[0].text == Some(devices[i].1@));
            assert(row.children[0].shows(devices[i].1@));
        }
    }
}

proof fn lemma_device_rows_len(head: ElementView, devices: Seq<(String, String)>)
    ensures
        device_rows(head, devices).children.len() == head.children.len() + devices.len(),
    decreases devices.len(),
{
    if devices.len() > 0 {
        lemma_device_rows_len(head, devices.drop_last());
    }
}

/// What is switched on and what is switched off is told differently, and names the
/// app.
pub proof fn switching_is_told(pkg: Seq<char>, other: Seq<char>)
    ensures
        toggled_notice(true, pkg) != toggled_notice(false, pkg),
        pkg != other ==> toggled_notice(true, pkg) != toggled_notice(true, other),
{
    reveal_strlit("已");
    reveal_strlit("启用");
    reveal_strlit("禁用");
    assert(toggled_notice(true, pkg)[1] == "启用"@[0]);
    assert(toggled_notice(false, pkg)[1] == "禁用"@[0]);
    if toggled_notice(true, pkg) == toggled_notice(true, other) {
        let head = "已"@ + "启用"@ + "快应用 "@;
        let tail = " 的联网能力"@;
        let a = toggled_notice(true, pkg);
        let b = toggled_notice(true, other);
        assert(a.len() == head.len() + pkg.len() + tail.len());
        assert(b.len() == head.len() + other.len() + tail.len());
        assert(a.subrange(head.len() as int, (head.len() + pkg.len()) as int) =~= pkg);
        assert(b.subrange(head.len() as int, (head.len() + other.len()) as int) =~= other);
    }
}

/// The page tells how many devices, installed apps and monitored apps there are, and
/// the last notice, which can be put away.
pub proof fn counts_and_notices_are_shown(s: PluginState)
    ensures
        ({
            let page = root_view(s);
            &&& page.shows(
                "已连接设备 "@ + text::decimal((s.connected_devices@.len() as usize) as nat),
            )
            &&& page.shows("设备应用 "@ + text::decimal((s.installed_apps@.len() as usize) as nat))
            &&& page.shows("已监听 "@ + text::decimal((s.apps@.len() as usize) as nat))
            &&& s.last_notice matches Some(n) ==> page.shows(n@) && page.fires(
                UiEvent::Click,
                EVENT_CLEAR_NOTICE@,
            )
            &&& page.children.last() == apps_section_view(s.apps@)
            &&& page.children.contains(device_section_view(s.connected_devices@))
            &&& page.children.contains(
                installed_apps_section_view(s.installed_apps@, s.monitored()),
            )
            &&& page.children.contains(add_pkg_section_view(s.pending_add_pkg@))
        }),
{
    let page = root_view(s);
    let head = page.children[0];
    let row = head.children[2];
    let a = "已连接设备 "@ + text::decimal((s.connected_devices@.len() as usize) as nat);
    let b = "设备应用 "@ + text::decimal((s.installed_apps@.len() as usize) as nat);
    let c = "已监听 "@ + text::decimal((s.apps@.len() as usize) as nat);
    assert(row.children[0].text == Some(a));
    assert(row.children[0].shows(a));
    assert(row.shows(a));
    assert(head.shows(a));
    assert(row.children[1].text == Some(b));
    assert(row.children[1].shows(b));
    assert(row.shows(b));
    assert(head.shows(b));
    assert(row.children[2].text == Some(c));
    assert(row.children[2].shows(c));
    assert(row.shows(c));
    assert(head.shows(c));
    let k: int = if s.last_notice is Some {
        1
    } else {
        0
    };
    if s.last_notice is Some {
        let line = page.children[1];
        let n = s.last_notice->0@;
        assert(line.children[0].text == Some(n));
        assert(line.children[0].shows(n));
        assert(line.shows(n));
        assert(line.children[1].events[0] == (UiEvent::Click, EVENT_CLEAR_NOTICE@));
        assert(line.children[1].fires(UiEvent::Click, EVENT_CLEAR_NOTICE@));
        assert(line.fires(UiEvent::Click, EVENT_CLEAR_NOTICE@));
    }
    assert(page.children[k + 2] == device_section_view(s.connected_devices@));
    assert(page.children[k + 4] == installed_apps_section_view(s.installed_apps@, s.monitored()));
    assert(page.children[k + 6] == add_pkg_section_view(s.pending_add_pkg@));
}

/// A package can be typed in and added, and the devices can be read again.
pub proof fn packages_can_be_added(pending: Seq<char>, devices: Seq<(String, String)>)
    ensures
        ({
            let form = add_pkg_section_view(pending);
            &&& form.fires(UiEvent::Input, EVENT_ADD_PKG_INPUT@)
            &&& form.fires(UiEvent::Click, EVENT_ADD_PKG_SUBMIT@)
            &&& form.children[2].children[0].props.contains(("value"@, pending))
        }),
        device_section_view(devices).fires(UiEvent::Click, EVENT_REFRESH_DEVICES@),
{
    let form = add_pkg_section_view(pending);
    let row = form.children[2];
    assert(row.children[0].events[0] == (UiEvent::Input, EVENT_ADD_PKG_INPUT@));
    assert(row.children[0].fires(UiEvent::Input, EVENT_ADD_PKG_INPUT@));
    assert(row.fires(UiEvent::Input, EVENT_ADD_PKG_INPUT@));
    assert(row.children[0].props[1] == ("value"@, pending));
    assert(row.children[1].events[0] == (UiEvent::Click, EVENT_ADD_PKG_SUBMIT@));
    assert(row.children[1].fires(UiEvent::Click, EVENT_ADD_PKG_SUBMIT@));
    assert(row.fires(UiEvent::Click, EVENT_ADD_PKG_SUBMIT@));
    let section = device_section_view(devices);
    let n = section.children.len() as int - 1;
    let last = refresh_row_view();
    assert(section.children[n] == last);
    assert(last.children[0].events[0] == (UiEvent::Click, EVENT_REFRESH_DEVICES@));
    assert(last.children[0].fires(UiEvent::Click, EVENT_REFRESH_DEVICES@));
    assert(last.fires(UiEvent::Click, EVENT_REFRESH_DEVICES@));
}

/// The list of monitored apps and that of installed ones show their rows, and say so
/// where there are none.
pub proof fn sections_show_their_rows(s: PluginState)
    ensures
        s.apps@.len() > 0 ==> apps_section_view(s.apps@) == app_rows(apps_head_view(), s.apps@),
        s.apps@.len() == 0 ==> apps_section_view(s.apps@).children.len()
            == apps_head_view().children.len() + 1,
        s.installed_apps@.len() > 0 ==> installed_apps_section_view(s.installed_apps@, s.monitored())
            == installed_rows(installed_head_view(), s.installed_apps@, s.monitored()),
        s.connected_devices@.len() > 0 ==> device_section_view(s.connected_devices@).children.len()
            == device_head_view().children.len() + s.connected_devices@.len() + 1,
{
    lemma_device_rows_len(device_head_view(), s.connected_devices@);
}

} // verus!
