//! The pages of the player, as lists of nodes.
use vstd::prelude::*;
use vstd::string::*;
use vstd::utf8::*;

use crate::player::model::{self, Song};
use crate::text;

verus! {

pub const EVENT_BACK: u32 = 1;

pub const EVENT_LIBRARY: u32 = 2;

pub const EVENT_TOGGLE: u32 = 3;

pub const EVENT_NEXT: u32 = 4;

pub const EVENT_PREVIOUS: u32 = 5;

pub const EVENT_NOW_PLAYING: u32 = 6;

pub const EVENT_VOLUME_DOWN: u32 = 7;

pub const EVENT_VOLUME_UP: u32 = 8;

pub const EVENT_LIBRARY_PREV: u32 = 9;

pub const EVENT_LIBRARY_NEXT: u32 = 10;

pub const EVENT_MODE: u32 = 11;

/// The events of song rows, whose meaning depends on the page, stand above every
/// other one.
pub const EVENT_LOCAL_SONG_BASE: u32 = 1000;

/// The keys of song rows.
pub const SONG_KEY_BASE: u32 = 100;

pub const PLAYER_BACKGROUND_KEY: u32 = 39;

pub const PLAYER_COVER_KEY: u32 = 40;

pub const ERROR_KEY: u32 = 90;

/// How many rows the screen has room for.
pub const UI_MAX_ROWS: usize = 25;

/// Tells the identities of backgrounds and covers apart.
pub const BACKGROUND_SEED: u32 = 0xBACC_600D;

pub const COVER_SEED: u32 = 0xC0DE_1234;

/// An event of a row.
#[derive(Clone, Copy)]
pub struct UiEvent(pub u32);

impl From<UiEvent> for u32 {
    fn from(value: UiEvent) -> (r: u32) {
        value.0
    }
}

impl vstd::std_specs::convert::FromSpecImpl<UiEvent> for u32 {
    open spec fn obeys_from_spec() -> bool {
        true
    }

    open spec fn from_spec(value: UiEvent) -> u32 {
        value.0
    }
}

#[derive(Clone, Copy, Debug, PartialEq, Eq, Structural)]
pub enum Route {
    Home,
    Library,
    Player,
}

#[derive(Clone, Copy, Debug, PartialEq, Eq, Structural)]
pub enum PlaybackState {
    Idle,
    Resolving,
    Buffering,
    Playing,
    Paused,
    Draining,
    Failed,
    Finished,
}

/// What the pages show of the player.
pub struct LyraApp {
    pub route: Route,
    pub generation: u32,
    /// The number of songs in the library.
    pub track_count: usize,
    pub current: Option<Song>,
    pub state: PlaybackState,
    pub volume_percent: u8,
    /// The name of the mode in which songs follow each other.
    pub mode_label: String,
    pub library_page: usize,
    pub library_page_count: usize,
    /// The songs of the current page of the library.
    pub library_page_songs: Vec<Song>,
    pub has_previous: bool,
    pub has_next: bool,
    pub error: Option<String>,
}

// ---------------------------------------------------------------- nodes

#[derive(Clone, Copy, Debug, PartialEq, Eq, Structural)]
pub enum TextStyle {
    Title,
    Description,
    Warning,
}

/// One node of a page.
#[derive(Debug)]
pub enum Node {
    NavigationPage { key: u32, title: String },
    Text { key: u32, text: String, style: TextStyle },
    ActionRow { key: u32, label: String, detail: String, event: u32, enabled: bool },
    StatusRow { key: u32, label: String, value: String },
    Image {
        key: u32,
        resource: u32,
        path: String,
        width: u32,
        height: u32,
        corner_radius: u32,
    },
}

/// The mathematical value of a [`Node`].
pub enum NodeView {
    NavigationPage { key: u32, title: Seq<char> },
    Text { key: u32, text: Seq<char>, style: TextStyle },
    ActionRow { key: u32, label: Seq<char>, detail: Seq<char>, event: u32, enabled: bool },
    StatusRow { key: u32, label: Seq<char>, value: Seq<char> },
    Image {
        key: u32,
        resource: u32,
        path: Seq<char>,
        width: u32,
        height: u32,
        corner_radius: u32,
    },
}

impl Node {
    pub open spec fn view(&self) -> NodeView {
        match self {
            Node::NavigationPage { key, title } => NodeView::NavigationPage {
                key: *key,
                title: title@,
            },
            Node::Text { key, text, style } => NodeView::Text {
                key: *key,
                text: text@,
                style: *style,
            },
            Node::ActionRow { key, label, detail, event, enabled } => NodeView::ActionRow {
                key: *key,
                label: label@,
                detail: detail@,
                event: *event,
                enabled: *enabled,
            },
            Node::StatusRow { key, label, value } => NodeView::StatusRow {
                key: *key,
                label: label@,
                value: value@,
            },
            Node::Image { key, resource, path, width, height, corner_radius } => NodeView::Image {
                key: *key,
                resource: *resource,
                path: path@,
                width: *width,
                height: *height,
                corner_radius: *corner_radius,
            },
        }
    }
}

pub open spec fn nodes_view(nodes: Seq<Node>) -> Seq<NodeView> {
    nodes.map_values(|n: Node| n@)
}

/// A page: the node of the page first, then those on it.
#[derive(Debug)]
pub struct Snapshot {
    pub generation: u32,
    pub nodes: Vec<Node>,
}

pub open spec fn page_node(title: Seq<char>) -> NodeView {
    NodeView::NavigationPage { key: 1, title }
}

pub open spec fn text_node(key: u32, text: Seq<char>, style: TextStyle) -> NodeView {
    NodeView::Text { key, text, style }
}

pub open spec fn action_node(
    key: u32,
    label: Seq<char>,
    detail: Seq<char>,
    event: u32,
    enabled: bool,
) -> NodeView {
    NodeView::ActionRow { key, label, detail, event, enabled }
}

pub open spec fn status_node(key: u32, label: Seq<char>, value: Seq<char>) -> NodeView {
    NodeView::StatusRow { key, label, value }
}

/// Nodes under construction.
struct Tree {
    nodes: Vec<Node>,
}

impl Tree {
    spec fn view(&self) -> Seq<NodeView> {
        nodes_view(self.nodes@)
    }

    fn begin(title: &str) -> (r: Tree)
        ensures
            r@ == seq![page_node(title@)],
    {
        let nodes = vec![Node::NavigationPage { key: 1, title: title.to_owned() }];
        let tree = Tree { nodes };
        assert(tree@ =~= seq![page_node(title@)]);
        tree
    }

    fn put(&mut self, node: Node)
        ensures
            final(self)@ == old(self)@.push(node@),
    {
        let ghost before = self.nodes@;
        self.nodes.push(node);
        assert(nodes_view(self.nodes@) =~= nodes_view(before).push(node@));
    }

    fn text(&mut self, key: u32, text: &str, style: TextStyle)
        ensures
            final(self)@ == old(self)@.push(text_node(key, text@, style)),
    {
        self.put(Node::Text { key, text: text.to_owned(), style });
    }

    fn action(&mut self, key: u32, label: &str, detail: &str, event: UiEvent, enabled: bool)
        ensures
            final(self)@ == old(self)@.push(action_node(key, label@, detail@, event.0, enabled)),
    {
        self.put(
            Node::ActionRow {
                key,
                label: label.to_owned(),
                detail: detail.to_owned(),
                event: u32::from(event),
                enabled,
            },
        );
    }

    fn status(&mut self, key: u32, label: &str, value: &str)
        ensures
            final(self)@ == old(self)@.push(status_node(key, label@, value@)),
    {
        self.put(Node::StatusRow { key, label: label.to_owned(), value: value.to_owned() });
    }
}

// ---------------------------------------------------------------- labels

pub open spec fn state_label(state: PlaybackState) -> Seq<char> {
    match state {
        PlaybackState::Idle => "未播放"@,
        PlaybackState::Resolving => "正在打开文件"@,
        PlaybackState::Buffering => "缓冲中"@,
        PlaybackState::Playing => "播放中"@,
        PlaybackState::Paused => "已暂停"@,
        PlaybackState::Draining => "即将结束"@,
        PlaybackState::Failed => "播放失败"@,
        PlaybackState::Finished => "无可播放歌曲"@,
    }
}

pub fn playback_label(state: PlaybackState) -> (r: &'static str)
    ensures
        r@ == state_label(state),
{
    match state {
        PlaybackState::Idle => "未播放",
        PlaybackState::Resolving => "正在打开文件",
        PlaybackState::Buffering => "缓冲中",
        PlaybackState::Playing => "播放中",
        PlaybackState::Paused => "已暂停",
        PlaybackState::Draining => "即将结束",
        PlaybackState::Failed => "播放失败",
        PlaybackState::Finished => "无可播放歌曲",
    }
}

/// A number for an image, made of the bytes of its path.
pub open spec fn path_hash(bytes: Seq<u8>, seed: u32) -> u32
    decreases bytes.len(),
{
    if bytes.len() == 0 {
        seed
    } else {
        (path_hash(bytes.drop_last(), seed) ^ bytes.last() as u32).wrapping_mul(0x0100_0193)
    }
}

/// The identity of an image; never zero.
pub open spec fn resource_of(path: Seq<char>, seed: u32) -> u32 {
    let hash = path_hash(encode_utf8(path), seed);
    if hash == 0 {
        1
    } else {
        hash
    }
}

pub fn image_resource_id(path: &str, seed: u32) -> (r: u32)
    ensures
        r == resource_of(path@, seed),
        r != 0,
{
    let bytes = path.as_bytes();
    let mut hash: u32 = seed;
    let mut i: usize = 0;
    assert(bytes@.take(0) =~= Seq::empty());
    while i < bytes.len()
        invariant
            i <= bytes@.len(),
            hash == path_hash(bytes@.take(i as int), seed),
        decreases bytes.len() - i,
    {
        assert(bytes@.take(i + 1).drop_last() =~= bytes@.take(i as int));
        hash = (hash ^ bytes[i] as u32).wrapping_mul(0x0100_0193);
        i = i + 1;
    }
    assert(bytes@.take(i as int) =~= bytes@);
    if hash == 0 {
        1
    } else {
        hash
    }
}

// ---------------------------------------------------------------- parts

/// The error, where there is one.
pub open spec fn error_nodes(error: Option<Seq<char>>) -> Seq<NodeView> {
    match error {
        Some(e) => seq![text_node(ERROR_KEY, e, TextStyle::Warning)],
        None => Seq::empty(),
    }
}

fn add_error(tree: &mut Tree, error: &Option<String>)
    ensures
        final(tree)@ == old(tree)@ + error_nodes(text::opt_text(*error)),
{
    let ghost before = tree@;
    match error {
        Some(e) => {
            tree.text(ERROR_KEY, e.as_str(), TextStyle::Warning);
            assert(tree@ =~= before + error_nodes(text::opt_text(*error)));
        },
        None => {
            assert(tree@ =~= before + error_nodes(text::opt_text(*error)));
        },
    }
}

/// The rows of songs, addressed by their place on the page.
pub open spec fn song_nodes(songs: Seq<Song>) -> Seq<NodeView> {
    songs.map(
        |i: int, s: Song|
            action_node(
                (SONG_KEY_BASE + i) as u32,
                s.name@,
                model::artist_names(s.artists@),
                (EVENT_LOCAL_SONG_BASE + i) as u32,
                true,
            ),
    )
}

fn add_songs(tree: &mut Tree, songs: &Vec<Song>)
    requires
        songs@.len() <= u32::MAX - EVENT_LOCAL_SONG_BASE,
    ensures
        final(tree)@ == old(tree)@ + song_nodes(songs@),
{
    let ghost before = tree@;
    let mut i: usize = 0;
    assert(tree@ =~= before + song_nodes(songs@).take(0));
    while i < songs.len()
        invariant
            i <= songs@.len(),
            songs@.len() <= u32::MAX - EVENT_LOCAL_SONG_BASE,
            tree@ == before + song_nodes(songs@).take(i as int),
        decreases songs.len() - i,
    {
        let artist = songs[i].artist_line();
        tree.action(
            SONG_KEY_BASE + i as u32,
            songs[i].name.as_str(),
            artist.as_str(),
            UiEvent(EVENT_LOCAL_SONG_BASE + i as u32),
            true,
        );
        assert(song_nodes(songs@).take(i + 1) =~= song_nodes(songs@).take(i as int).push(
            song_nodes(songs@)[i as int],
        ));
        assert(tree@ =~= before + song_nodes(songs@).take(i + 1));
        i = i + 1;
    }
    assert(song_nodes(songs@).take(i as int) =~= song_nodes(songs@));
}

/// The background and the cover of a song, where it has them.
pub open spec fn artwork_nodes(song: Song) -> Seq<NodeView> {
    let background = song.album.background_url@;
    let cover = song.album.cover_url@;
    (if background.len() == 0 {
        Seq::empty()
    } else {
        seq![
            NodeView::Image {
                key: PLAYER_BACKGROUND_KEY,
                resource: resource_of(background, BACKGROUND_SEED),
                path: background,
                width: 336,
                height: 520,
                corner_radius: 0,
            },
        ]
    }) + (if cover.len() == 0 {
        Seq::empty()
    } else {
        seq![
            NodeView::Image {
                key: PLAYER_COVER_KEY,
                resource: resource_of(cover, COVER_SEED),
                path: cover,
                width: 180,
                height: 180,
                corner_radius: 24,
            },
        ]
    })
}

fn add_artwork(tree: &mut Tree, song: &Song)
    ensures
        final(tree)@ == old(tree)@ + artwork_nodes(*song),
{
    let ghost before = tree@;
    if !song.album.background_url.as_str().is_empty() {
        let path = song.album.background_url.as_str();
        tree.put(
            Node::Image {
                key: PLAYER_BACKGROUND_KEY,
                resource: image_resource_id(path, BACKGROUND_SEED),
                path: path.to_owned(),
                width: 336,
                height: 520,
                corner_radius: 0,
            },
        );
    }
    if !song.album.cover_url.as_str().is_empty() {
        let path = song.album.cover_url.as_str();
        tree.put(
            Node::Image {
                key: PLAYER_COVER_KEY,
                resource: image_resource_id(path, COVER_SEED),
                path: path.to_owned(),
                width: 180,
                height: 180,
                corner_radius: 24,
            },
        );
    }
    assert(tree@ =~= before + artwork_nodes(*song));
}

// ---------------------------------------------------------------- pages

/// The first page.
pub open spec fn home_nodes(app: LyraApp) -> Seq<NodeView> {
    seq![
        page_node("Lyra"@),
        text_node(2, "腕上本地音乐"@, TextStyle::Title),
        action_node(
            3,
            match app.current {
                Some(song) => song.name@,
                None => "暂无播放"@,
            },
            state_label(app.state),
            EVENT_NOW_PLAYING,
            app.current is Some,
        ),
        action_node(
            4,
            "本地音乐"@,
            text::decimal(app.track_count as nat) + " 首歌曲"@,
            EVENT_LIBRARY,
            true,
        ),
        action_node(6, "播放模式"@, app.mode_label@, EVENT_MODE, true),
        text_node(5, "请通过 Lyra Import 快应用导入音乐"@, TextStyle::Description),
    ] + error_nodes(text::opt_text(app.error))
}

fn home(app: &LyraApp) -> (r: Vec<Node>)
    ensures
        nodes_view(r@) == home_nodes(*app),
{
    let n = text::u64_text(app.track_count as u64);
    let count = text::cat(n.as_str(), " 首歌曲");
    let now = match &app.current {
        Some(song) => song.name.as_str(),
        None => "暂无播放",
    };
    let mut tree = Tree::begin("Lyra");
    tree.text(2, "腕上本地音乐", TextStyle::Title);
    tree.action(
        3,
        now,
        playback_label(app.state),
        UiEvent(EVENT_NOW_PLAYING),
        app.current.is_some(),
    );
    tree.action(4, "本地音乐", count.as_str(), UiEvent(EVENT_LIBRARY), true);
    tree.action(6, "播放模式", app.mode_label.as_str(), UiEvent(EVENT_MODE), true);
    tree.text(5, "请通过 Lyra Import 快应用导入音乐", TextStyle::Description);
    let ghost fixed = tree@;
    add_error(&mut tree, &app.error);
    proof {
        assert(fixed.len() == 6);
        assert(tree@ =~= home_nodes(*app));
    }
    tree.nodes
}

/// The line that tells the page.
pub open spec fn page_label(app: LyraApp) -> Seq<char> {
    "第 "@ + text::decimal((app.library_page + 1) as nat) + "/"@ + text::decimal(
        app.library_page_count as nat,
    ) + " 页"@
}

/// The page with the songs of the library.
pub open spec fn library_nodes(app: LyraApp) -> Seq<NodeView> {
    seq![
        page_node("本地音乐"@),
        text_node(
            2,
            if app.track_count == 0 {
                "暂无音乐，请先打开 Lyra Import"@
            } else {
                "来自 Lyra Import 的音频与封面"@
            },
            TextStyle::Description,
        ),
    ] + song_nodes(app.library_page_songs@) + seq![
        action_node(10, "上一页"@, page_label(app), EVENT_LIBRARY_PREV, app.library_page > 0),
        action_node(
            11,
            "下一页"@,
            page_label(app),
            EVENT_LIBRARY_NEXT,
            app.library_page + 1 < app.library_page_count,
        ),
        action_node(3, "返回"@, "回到 Lyra"@, EVENT_BACK, true),
    ] + error_nodes(text::opt_text(app.error))
}

fn library(app: &LyraApp) -> (r: Vec<Node>)
    requires
        app.library_page_songs@.len() <= u32::MAX - EVENT_LOCAL_SONG_BASE,
    ensures
        nodes_view(r@) == library_nodes(*app),
{
    let hint = if app.track_count == 0 {
        "暂无音乐，请先打开 Lyra Import"
    } else {
        "来自 Lyra Import 的音频与封面"
    };
    let page = text::u128_text(app.library_page as u128 + 1);
    let count = text::u64_text(app.library_page_count as u64);
    let mut line = text::cat3("第 ", page.as_str(), "/");
    line.append(count.as_str());
    line.append(" 页");
    let mut tree = Tree::begin("本地音乐");
    tree.text(2, hint, TextStyle::Description);
    let ghost top = tree@;
    add_songs(&mut tree, &app.library_page_songs);
    let ghost listed = tree@;
    tree.action(10, "上一页", line.as_str(), UiEvent(EVENT_LIBRARY_PREV), app.library_page > 0);
    tree.action(
        11,
        "下一页",
        line.as_str(),
        UiEvent(EVENT_LIBRARY_NEXT),
        app.library_page_count > 0 && app.library_page < app.library_page_count - 1,
    );
    tree.action(3, "返回", "回到 Lyra", UiEvent(EVENT_BACK), true);
    let ghost rows = tree@;
    add_error(&mut tree, &app.error);
    proof {
        assert(top.len() == 2);
        let n = listed.len() as int;
        assert(rows =~= listed + seq![rows[n], rows[n + 1], rows[n + 2]]);
        assert(tree@ =~= library_nodes(*app));
    }
    tree.nodes
}

/// The page of the player without a song.
pub open spec fn silent_nodes() -> Seq<NodeView> {
    seq![
        page_node("正在播放"@),
        text_node(2, "还没有选择歌曲"@, TextStyle::Description),
        action_node(3, "返回"@, "选择一首本地音乐"@, EVENT_BACK, true),
    ]
}

pub open spec fn toggle_label(state: PlaybackState) -> Seq<char> {
    match state {
        PlaybackState::Playing | PlaybackState::Buffering => "暂停"@,
        PlaybackState::Paused => "继续播放"@,
        _ => "播放"@,
    }
}

pub open spec fn can_toggle(state: PlaybackState) -> bool {
    state == PlaybackState::Playing || state == PlaybackState::Paused || state
        == PlaybackState::Buffering
}

/// What is told of the song and of the volume.
pub open spec fn song_lines(app: LyraApp, song: Song) -> Seq<NodeView> {
    seq![
        text_node(2, song.name@, TextStyle::Title),
        text_node(3, model::artist_names(song.artists@), TextStyle::Description),
        status_node(5, "状态"@, state_label(app.state)),
        status_node(10, "音量"@, text::decimal(app.volume_percent as nat) + "%"@),
        action_node(11, "降低音量"@, "降低 10%"@, EVENT_VOLUME_DOWN, app.volume_percent > 0),
        action_node(12, "提高音量"@, "提高 10%"@, EVENT_VOLUME_UP, app.volume_percent < 100),
    ]
}

/// The rows that control the player.
pub open spec fn control_rows(app: LyraApp) -> Seq<NodeView> {
    seq![
        action_node(6, toggle_label(app.state), "播放控制"@, EVENT_TOGGLE, can_toggle(app.state)),
        action_node(7, "上一首"@, "本地音乐列表中的上一首"@, EVENT_PREVIOUS, app.has_previous),
        action_node(8, "下一首"@, "本地音乐列表中的下一首"@, EVENT_NEXT, app.has_next),
        action_node(9, "返回"@, "音乐会继续播放"@, EVENT_BACK, true),
    ]
}

/// The page of the player with a song.
pub open spec fn song_page_nodes(app: LyraApp, song: Song) -> Seq<NodeView> {
    seq![page_node("正在播放"@)] + artwork_nodes(song) + song_lines(app, song) + control_rows(app)
        + error_nodes(text::opt_text(app.error))
}

pub open spec fn player_nodes(app: LyraApp) -> Seq<NodeView> {
    match app.current {
        Some(song) => song_page_nodes(app, song),
        None => silent_nodes(),
    }
}

fn add_song_lines(tree: &mut Tree, app: &LyraApp, song: &Song)
    ensures
        final(tree)@ == old(tree)@ + song_lines(*app, *song),
{
    let ghost before = tree@;
    let artist = song.artist_line();
    let percent = text::u64_text(app.volume_percent as u64);
    let volume = text::cat(percent.as_str(), "%");
    tree.text(2, song.name.as_str(), TextStyle::Title);
    tree.text(3, artist.as_str(), TextStyle::Description);
    tree.status(5, "状态", playback_label(app.state));
    tree.status(10, "音量", volume.as_str());
    tree.action(11, "降低音量", "降低 10%", UiEvent(EVENT_VOLUME_DOWN), app.volume_percent > 0);
    tree.action(12, "提高音量", "提高 10%", UiEvent(EVENT_VOLUME_UP), app.volume_percent < 100);
    assert(tree@ =~= before + song_lines(*app, *song));
}

fn add_control_rows(tree: &mut Tree, app: &LyraApp)
    ensures
        final(tree)@ == old(tree)@ + control_rows(*app),
{
    let ghost before = tree@;
    let (toggle, toggles) = match app.state {
        PlaybackState::Playing | PlaybackState::Buffering => ("暂停", true),
        PlaybackState::Paused => ("继续播放", true),
        _ => ("播放", false),
    };
    tree.action(6, toggle, "播放控制", UiEvent(EVENT_TOGGLE), toggles);
    tree.action(7, "上一首", "本地音乐列表中的上一首", UiEvent(EVENT_PREVIOUS), app.has_previous);
    tree.action(8, "下一首", "本地音乐列表中的下一首", UiEvent(EVENT_NEXT), app.has_next);
    tree.action(9, "返回", "音乐会继续播放", UiEvent(EVENT_BACK), true);
    assert(tree@ =~= before + control_rows(*app));
}

fn player(app: &LyraApp) -> (r: Vec<Node>)
    ensures
        nodes_view(r@) == player_nodes(*app),
{
    let mut tree = Tree::begin("正在播放");
    match &app.current {
        Some(song) => {
            add_artwork(&mut tree, song);
            add_song_lines(&mut tree, app, song);
            add_control_rows(&mut tree, app);
            add_error(&mut tree, &app.error);
        },
        None => {
            tree.text(2, "还没有选择歌曲", TextStyle::Description);
            tree.action(3, "返回", "选择一首本地音乐", UiEvent(EVENT_BACK), true);
            assert(tree@ =~= silent_nodes());
        },
    }
    tree.nodes
}

/// The nodes of the current page.
pub open spec fn shown_nodes(app: LyraApp) -> Seq<NodeView> {
    match app.route {
        Route::Home => home_nodes(app),
        Route::Library => library_nodes(app),
        Route::Player => player_nodes(app),
    }
}

/// Lays out the current page.
pub fn render(app: &LyraApp) -> (r: Snapshot)
    requires
        app.library_page_songs@.len() <= u32::MAX - EVENT_LOCAL_SONG_BASE,
    ensures
        r.generation == app.generation,
        nodes_view(r.nodes@) == shown_nodes(*app),
{
    let nodes = match app.route {
        Route::Home => home(app),
        Route::Library => library(app),
        Route::Player => player(app),
    };
    Snapshot { generation: app.generation, nodes }
}

// ---------------------------------------------------------------- laws

/// Every page begins with the node of the page.
pub proof fn pages_begin_with_themselves(app: LyraApp)
    ensures
        shown_nodes(app).len() > 0,
        shown_nodes(app)[0] is NavigationPage,
{
}

/// A page of the library has three rows besides those of its songs, and the row
/// of each song carries its place on the page.
pub proof fn library_rows_are_addressed_by_place(app: LyraApp, i: int)
    requires
        0 <= i < app.library_page_songs@.len() <= u32::MAX - EVENT_LOCAL_SONG_BASE,
    ensures
        library_nodes(app)[2 + i] == action_node(
            (SONG_KEY_BASE + i) as u32,
            app.library_page_songs@[i].name@,
            model::artist_names(app.library_page_songs@[i].artists@),
            (EVENT_LOCAL_SONG_BASE + i) as u32,
            true,
        ),
        app.error is None ==> library_nodes(app).len() == app.library_page_songs@.len() + 5,
{
}

/// The background lies below the cover.
pub proof fn background_comes_before_the_cover(song: Song)
    requires
        song.album.background_url@.len() > 0,
        song.album.cover_url@.len() > 0,
    ensures
        artwork_nodes(song).len() == 2,
        artwork_nodes(song)[0] matches NodeView::Image { key, .. } && key == PLAYER_BACKGROUND_KEY,
        artwork_nodes(song)[1] matches NodeView::Image { key, corner_radius, .. } && key
            == PLAYER_COVER_KEY && corner_radius == 24,
{
}

/// How many of some nodes are rows.
pub open spec fn rows_in(nodes: Seq<NodeView>) -> nat
    decreases nodes.len(),
{
    if nodes.len() == 0 {
        0
    } else {
        rows_in(nodes.drop_last()) + if nodes.last() is ActionRow || nodes.last() is StatusRow {
            1nat
        } else {
            0
        }
    }
}

proof fn lemma_rows_add(a: Seq<NodeView>, b: Seq<NodeView>)
    ensures
        rows_in(a + b) == rows_in(a) + rows_in(b),
    decreases b.len(),
{
    if b.len() == 0 {
        assert(a + b =~= a);
    } else {
        lemma_rows_add(a, b.drop_last());
        assert((a + b).drop_last() =~= a + b.drop_last());
    }
}

proof fn lemma_rows_bound(nodes: Seq<NodeView>)
    ensures
        rows_in(nodes) <= nodes.len(),
    decreases nodes.len(),
{
    if nodes.len() > 0 {
        lemma_rows_bound(nodes.drop_last());
    }
}

proof fn lemma_song_rows(songs: Seq<Song>)
    ensures
        rows_in(song_nodes(songs)) == songs.len(),
    decreases songs.len(),
{
    if songs.len() > 0 {
        lemma_song_rows(songs.drop_last());
        assert(song_nodes(songs).drop_last() =~= song_nodes(songs.drop_last()));
    }
}

/// A page of the library has three rows besides those of its songs. Where they fit
/// the screen, those of every page do.
pub proof fn pages_fit_the_rows(app: LyraApp)
    ensures
        rows_in(library_nodes(app)) == app.library_page_songs@.len() + 3,
        app.library_page_songs@.len() + 3 <= UI_MAX_ROWS ==> rows_in(shown_nodes(app))
            <= UI_MAX_ROWS,
{
    reveal_with_fuel(rows_in, 4);
    let songs = song_nodes(app.library_page_songs@);
    let whole = library_nodes(app);
    let n = songs.len() as int;
    let head = whole.take(2);
    let rows = whole.subrange(2 + n, 5 + n);
    let error = error_nodes(text::opt_text(app.error));
    assert(whole =~= head + songs + rows + error);
    lemma_song_rows(app.library_page_songs@);
    lemma_rows_add(head, songs);
    lemma_rows_add(head + songs, rows);
    lemma_rows_add(head + songs + rows, error);
    assert(rows_in(head) == 0) by {
        assert(head.drop_last().drop_last() =~= Seq::empty());
    }
    assert(rows_in(rows) == 3) by {
        assert(rows.drop_last().drop_last().drop_last() =~= Seq::empty());
    }
    assert(rows_in(error) == 0) by {
        assert(error.len() > 0 ==> error.drop_last() =~= Seq::empty());
    }
    lemma_rows_bound(home_nodes(app));
    lemma_rows_bound(player_nodes(app));
}

proof fn lemma_state_labels()
    ensures
        "未播放"@ != "正在打开文件"@,
        "未播放"@ != "缓冲中"@,
        "未播放"@ != "播放中"@,
        "未播放"@ != "已暂停"@,
        "未播放"@ != "即将结束"@,
        "未播放"@ != "播放失败"@,
        "未播放"@ != "无可播放歌曲"@,
        "正在打开文件"@ != "缓冲中"@,
        "正在打开文件"@ != "播放中"@,
        "正在打开文件"@ != "已暂停"@,
        "正在打开文件"@ != "即将结束"@,
        "正在打开文件"@ != "播放失败"@,
        "正在打开文件"@ != "无可播放歌曲"@,
        "缓冲中"@ != "播放中"@,
        "缓冲中"@ != "已暂停"@,
        "缓冲中"@ != "即将结束"@,
        "缓冲中"@ != "播放失败"@,
        "缓冲中"@ != "无可播放歌曲"@,
        "播放中"@ != "已暂停"@,
        "播放中"@ != "即将结束"@,
        "播放中"@ != "播放失败"@,
        "播放中"@ != "无可播放歌曲"@,
        "已暂停"@ != "即将结束"@,
        "已暂停"@ != "播放失败"@,
        "已暂停"@ != "无可播放歌曲"@,
        "即将结束"@ != "播放失败"@,
        "即将结束"@ != "无可播放歌曲"@,
        "播放失败"@ != "无可播放歌曲"@,
{
    reveal_strlit("未播放");
    reveal_strlit("正在打开文件");
    reveal_strlit("缓冲中");
    reveal_strlit("播放中");
    reveal_strlit("已暂停");
    reveal_strlit("即将结束");
    reveal_strlit("播放失败");
    reveal_strlit("无可播放歌曲");
    assert("未播放"@.len() != "正在打开文件"@.len());
    assert("未播放"@[0] != "缓冲中"@[0]);
    assert("未播放"@[0] != "播放中"@[0]);
    assert("未播放"@[0] != "已暂停"@[0]);
    assert("未播放"@.len() != "即将结束"@.len());
    assert("未播放"@.len() != "播放失败"@.len());
    assert("未播放"@.len() != "无可播放歌曲"@.len());
    assert("正在打开文件"@.len() != "缓冲中"@.len());
    assert("正在打开文件"@.len() != "播放中"@.len());
    assert("正在打开文件"@.len() != "已暂停"@.len());
    assert("正在打开文件"@.len() != "即将结束"@.len());
    assert("正在打开文件"@.len() != "播放失败"@.len());
    assert("正在打开文件"@[0] != "无可播放歌曲"@[0]);
    assert("缓冲中"@[0] != "播放中"@[0]);
    assert("缓冲中"@[0] != "已暂停"@[0]);
    assert("缓冲中"@.len() != "即将结束"@.len());
    assert("缓冲中"@.len() != "播放失败"@.len());
    assert("缓冲中"@.len() != "无可播放歌曲"@.len());
    assert("播放中"@[0] != "已暂停"@[0]);
    assert("播放中"@.len() != "即将结束"@.len());
    assert("播放中"@.len() != "播放失败"@.len());
    assert("播放中"@.len() != "无可播放歌曲"@.len());
    assert("已暂停"@.len() != "即将结束"@.len());
    assert("已暂停"@.len() != "播放失败"@.len());
    assert("已暂停"@.len() != "无可播放歌曲"@.len());
    assert("即将结束"@[0] != "播放失败"@[0]);
    assert("即将结束"@.len() != "无可播放歌曲"@.len());
    assert("播放失败"@.len() != "无可播放歌曲"@.len());
}

/// Whether a page has a row for an event, and whether that can be used.
pub open spec fn offers(nodes: Seq<NodeView>, wanted: u32, usable: bool) -> bool {
    exists|i: int|
        0 <= i < nodes.len() && (#[trigger] nodes[i] matches NodeView::ActionRow {
            event,
            enabled,
            ..
        } && event == wanted && enabled == usable)
}

/// Whether a page has a line of text.
pub open spec fn says(nodes: Seq<NodeView>, line: Seq<char>, tone: TextStyle) -> bool {
    exists|i: int|
        0 <= i < nodes.len() && (#[trigger] nodes[i] matches NodeView::Text { text, style, .. }
            && text == line && style == tone)
}

proof fn lemma_offers(nodes: Seq<NodeView>, i: int)
    requires
        0 <= i < nodes.len(),
        nodes[i] is ActionRow,
    ensures
        offers(nodes, nodes[i]->event, nodes[i]->enabled),
{
}

/// The first page leads to the song that plays, where one does, to the library and
/// to the mode, and tells how many songs there are.
pub proof fn home_leads_on(app: LyraApp)
    requires
        app.route == Route::Home,
    ensures
        offers(shown_nodes(app), EVENT_NOW_PLAYING, app.current is Some),
        offers(shown_nodes(app), EVENT_LIBRARY, true),
        offers(shown_nodes(app), EVENT_MODE, true),
        shown_nodes(app)[2] matches NodeView::ActionRow { label, detail, .. } && detail
            == state_label(app.state) && (app.current matches Some(song) ==> label == song.name@),
        shown_nodes(app)[3] matches NodeView::ActionRow { detail, .. } && detail == text::decimal(
            app.track_count as nat,
        ) + " 首歌曲"@,
{
    let nodes = shown_nodes(app);
    lemma_offers(nodes, 2);
    lemma_offers(nodes, 3);
    lemma_offers(nodes, 4);
}

/// The library leads to the page before and to the page behind exactly where there
/// is one, and always back.
pub proof fn library_can_be_turned(app: LyraApp)
    requires
        app.route == Route::Library,
    ensures
        offers(shown_nodes(app), EVENT_LIBRARY_PREV, app.library_page > 0),
        offers(
            shown_nodes(app),
            EVENT_LIBRARY_NEXT,
            app.library_page + 1 < app.library_page_count,
        ),
        offers(shown_nodes(app), EVENT_BACK, true),
{
    let nodes = shown_nodes(app);
    let n = app.library_page_songs@.len() as int;
    assert(song_nodes(app.library_page_songs@).len() == n);
    assert(nodes[2 + n] is ActionRow && nodes[2 + n]->event == EVENT_LIBRARY_PREV);
    assert(nodes[3 + n] is ActionRow && nodes[3 + n]->event == EVENT_LIBRARY_NEXT);
    assert(nodes[4 + n] is ActionRow && nodes[4 + n]->event == EVENT_BACK);
    lemma_offers(nodes, 2 + n);
    lemma_offers(nodes, 3 + n);
    lemma_offers(nodes, 4 + n);
}

/// The page of a song names it and its artists, and its controls can be used where
/// they do something: pausing while it plays, going to other songs where there are
/// any, and the volume within its range.
pub proof fn songs_can_be_controlled(app: LyraApp, song: Song)
    requires
        app.route == Route::Player,
        app.current == Some(song),
    ensures
        ({
            let nodes = shown_nodes(app);
            &&& says(nodes, song.name@, TextStyle::Title)
            &&& says(nodes, model::artist_names(song.artists@), TextStyle::Description)
            &&& offers(
                nodes,
                EVENT_TOGGLE,
                app.state == PlaybackState::Playing || app.state == PlaybackState::Paused || app.state
                    == PlaybackState::Buffering,
            )
            &&& offers(nodes, EVENT_PREVIOUS, app.has_previous)
            &&& offers(nodes, EVENT_NEXT, app.has_next)
            &&& offers(nodes, EVENT_VOLUME_DOWN, app.volume_percent > 0)
            &&& offers(nodes, EVENT_VOLUME_UP, app.volume_percent < 100)
            &&& offers(nodes, EVENT_BACK, true)
            &&& app.error matches Some(e) ==> says(nodes, e@, TextStyle::Warning)
        }),
{
    let nodes = shown_nodes(app);
    let k = 1 + artwork_nodes(song).len() as int;
    let lines = song_lines(app, song);
    let rows = control_rows(app);
    assert forall|i: int| 0 <= i < 6 implies nodes[k + i] == #[trigger] lines[i] by {}
    assert forall|i: int| 0 <= i < 4 implies nodes[k + 6 + i] == #[trigger] rows[i] by {}
    assert(nodes[k] == lines[0]);
    assert(nodes[k + 1] == lines[1]);
    assert(nodes[k + 4] == lines[4] && nodes[k + 5] == lines[5]);
    assert(nodes[k + 6] == rows[0] && nodes[k + 7] == rows[1] && nodes[k + 8] == rows[2] && nodes[k
        + 9] == rows[3]);
    lemma_offers(nodes, k + 4);
    lemma_offers(nodes, k + 5);
    lemma_offers(nodes, k + 6);
    lemma_offers(nodes, k + 7);
    lemma_offers(nodes, k + 8);
    lemma_offers(nodes, k + 9);
    if app.error is Some {
        assert(nodes[k + 10] == error_nodes(text::opt_text(app.error))[0]);
    }
}

/// The states of playing are told apart.
pub proof fn states_are_told_apart(a: PlaybackState, b: PlaybackState)
    ensures
        state_label(a) == state_label(b) <==> a == b,
{
    lemma_state_labels();
}

/// A path is told by its bytes one after the other, and is never told by zero.
pub proof fn paths_are_told_byte_by_byte(a: Seq<u8>, b: Seq<u8>, seed: u32, path: Seq<char>)
    ensures
        path_hash(a + b, seed) == path_hash(b, path_hash(a, seed)),
        path_hash(Seq::empty(), seed) == seed,
        resource_of(path, seed) != 0,
    decreases b.len(),
{
    if b.len() == 0 {
        assert(a + b =~= a);
    } else {
        paths_are_told_byte_by_byte(a, b.drop_last(), seed, path);
        assert((a + b).drop_last() =~= a + b.drop_last());
        assert((a + b).last() == b.last());
    }
}

/// A song shows the pictures that it has, at their own paths.
pub proof fn songs_show_their_pictures(song: Song)
    ensures
        song.album.cover_url@.len() > 0 ==> artwork_nodes(song).len() > 0 && (artwork_nodes(
            song,
        ).last() matches NodeView::Image { path, width, height, .. } && path
            == song.album.cover_url@ && width == 180 && height == 180),
        song.album.background_url@.len() > 0 ==> artwork_nodes(song).len() > 0 && (artwork_nodes(
            song,
        )[0] matches NodeView::Image { path, width, height, .. } && path
            == song.album.background_url@ && width == 336 && height == 520),
        song.album.cover_url@.len() == 0 && song.album.background_url@.len() == 0 ==> artwork_nodes(
            song,
        ).len() == 0,
{
}

/// The page of the library is counted from one, of as many as there are.
pub proof fn library_pages_are_counted_from_one(app: LyraApp)
    ensures
        ({
            let l = page_label(app);
            let a = text::decimal((app.library_page + 1) as nat);
            let b = text::decimal(app.library_page_count as nat);
            let n = "第 "@.len() as int;
            &&& l.subrange(n, n + a.len()) == a
            &&& l[n + a.len()] == '/'
            &&& l.subrange(n + a.len() + 1, n + a.len() + 1 + b.len()) == b
        }),
{
    let l = page_label(app);
    let a = text::decimal((app.library_page + 1) as nat);
    let b = text::decimal(app.library_page_count as nat);
    let n = "第 "@.len() as int;
    reveal_strlit("/");
    assert(l.subrange(n, n + a.len()) =~= a);
    assert(l.subrange(n + a.len() + 1, n + a.len() + 1 + b.len()) =~= b);
}

proof fn lemma_toggle_labels()
    ensures
        "暂停"@ != "继续播放"@,
        "暂停"@ != "播放"@,
        "继续播放"@ != "播放"@,
{
    reveal_strlit("暂停");
    reveal_strlit("继续播放");
    reveal_strlit("播放");
    assert("暂停"@.len() != "继续播放"@.len());
    assert("暂停"@[0] != "播放"@[0]);
    assert("继续播放"@.len() != "播放"@.len());
}

/// What the button for playing does is told by its label: it pauses what plays, goes
/// on with what is paused, and plays otherwise.
pub proof fn toggles_tell_what_they_do(a: PlaybackState)
    ensures
        toggle_label(a) == "暂停"@ <==> a == PlaybackState::Playing || a == PlaybackState::Buffering,
        toggle_label(a) == "继续播放"@ <==> a == PlaybackState::Paused,
        toggle_label(a) == "播放"@ <==> a != PlaybackState::Playing && a != PlaybackState::Buffering
            && a != PlaybackState::Paused,
{
    lemma_toggle_labels();
}

/// An error is shown on every page, as a warning, behind everything else.
pub proof fn errors_are_shown(app: LyraApp)
    requires
        app.error is Some,
        app.route == Route::Player ==> app.current is Some,
    ensures
        says(shown_nodes(app), app.error->0@, TextStyle::Warning),
        shown_nodes(app).last() is Text,
{
    let nodes = shown_nodes(app);
    let n = nodes.len() as int - 1;
    let e = error_nodes(text::opt_text(app.error));
    assert(e.len() == 1);
    assert(nodes[n] == e[0]);
}

/// No two buttons report the same event, and none reports that of a song.
pub proof fn events_are_told_apart()
    ensures
        ({
            let events = seq![
                EVENT_BACK,
                EVENT_LIBRARY,
                EVENT_TOGGLE,
                EVENT_NEXT,
                EVENT_PREVIOUS,
                EVENT_NOW_PLAYING,
                EVENT_VOLUME_DOWN,
                EVENT_VOLUME_UP,
                EVENT_LIBRARY_PREV,
                EVENT_LIBRARY_NEXT,
                EVENT_MODE,
            ];
            &&& events.no_duplicates()
            &&& forall|i: int|
                0 <= i < events.len() ==> 0 < #[trigger] events[i] < EVENT_LOCAL_SONG_BASE
        }),
{
}

} // verus!
