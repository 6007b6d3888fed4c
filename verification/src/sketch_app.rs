//! How a sketch application is set up: where its assets live and how its
//! window is configured, natively and on the web.
use vstd::prelude::*;
use vstd::string::*;

verus! {

/// The page element a sketch running on the web draws into.
pub const WEB_CANVAS_SELECTOR: &'static str = "#bevy-canvas";

/// Where a sketch runs.
#[derive(Clone, Copy, Debug, PartialEq, Eq, Structural)]
pub enum Platform {
    /// A desktop build.
    Native,
    /// A WebAssembly build in a browser page.
    Web,
}

/// The asset folder of a sketch whose crate lives in `manifest_dir`: its own
/// `assets` folder natively, `assets` next to the page on the web.
pub open spec fn local_asset_path_spec(manifest_dir: Seq<char>, platform: Platform) -> Seq<char> {
    match platform {
        Platform::Web => "assets"@,
        Platform::Native => manifest_dir + "/assets"@,
    }
}

/// The asset folder shared by the whole workspace, seen from a sketch crate in
/// `manifest_dir` two levels below the workspace root.
pub open spec fn workspace_asset_path_spec(manifest_dir: Seq<char>, platform: Platform) -> Seq<char> {
    match platform {
        Platform::Web => "assets"@,
        Platform::Native => manifest_dir + "/../../assets"@,
    }
}

/// The asset folder of a sketch whose crate lives in `manifest_dir`.
pub fn local_asset_path(manifest_dir: &str, platform: Platform) -> (path: String)
    ensures
        path@ == local_asset_path_spec(manifest_dir@, platform),
{
    match platform {
        Platform::Web => String::from_str("assets"),
        Platform::Native => {
            let mut path = String::from_str(manifest_dir);
            path.append("/assets");
            path
        },
    }
}

/// The asset folder shared by the whole workspace.
pub fn workspace_asset_path(manifest_dir: &str, platform: Platform) -> (path: String)
    ensures
        path@ == workspace_asset_path_spec(manifest_dir@, platform),
{
    match platform {
        Platform::Web => String::from_str("assets"),
        Platform::Native => {
            let mut path = String::from_str(manifest_dir);
            path.append("/../../assets");
            path
        },
    }
}

/// A sketch's own asset folder, natively, is its crate folder followed by
/// `/assets`, whatever the folder's text; different crate folders give
/// different asset folders. On the web it is the relative folder `assets`.
pub proof fn lemma_local_asset_path_native(dir: Seq<char>, other: Seq<char>)
    ensures
        local_asset_path_spec(dir, Platform::Native).len() == dir.len() + 7,
        local_asset_path_spec(dir, Platform::Native).subrange(0, dir.len() as int) == dir,
        local_asset_path_spec(dir, Platform::Native).skip(dir.len() as int) == seq![
            '/',
            'a',
            's',
            's',
            'e',
            't',
            's',
        ],
        local_asset_path_spec(dir, Platform::Native) == local_asset_path_spec(other, Platform::Native)
            ==> dir == other,
        local_asset_path_spec(dir, Platform::Web) == seq!['a', 's', 's', 'e', 't', 's'],
{
    reveal_strlit("/assets");
    reveal_strlit("assets");
    let p = local_asset_path_spec(dir, Platform::Native);
    assert(p.subrange(0, dir.len() as int) =~= dir);
    assert(p.skip(dir.len() as int) =~= seq!['/', 'a', 's', 's', 'e', 't', 's']);
    assert("assets"@ =~= seq!['a', 's', 's', 'e', 't', 's']);
    let q = local_asset_path_spec(other, Platform::Native);
    if p == q {
        assert(dir.len() == other.len());
        assert(q.subrange(0, other.len() as int) =~= other);
    }
}

/// The workspace asset folder, natively, is the sketch's crate folder
/// followed by `/../../assets`, whatever the folder's text; different crate
/// folders give different asset folders. On the web it is `assets`.
pub proof fn lemma_workspace_asset_path_native(dir: Seq<char>, other: Seq<char>)
    ensures
        workspace_asset_path_spec(dir, Platform::Native).len() == dir.len() + 13,
        workspace_asset_path_spec(dir, Platform::Native).subrange(0, dir.len() as int) == dir,
        workspace_asset_path_spec(dir, Platform::Native).skip(dir.len() as int) == seq![
            '/',
            '.',
            '.',
            '/',
            '.',
            '.',
            '/',
            'a',
            's',
            's',
            'e',
            't',
            's',
        ],
        workspace_asset_path_spec(dir, Platform::Native) == workspace_asset_path_spec(
            other,
            Platform::Native,
        ) ==> dir == other,
        workspace_asset_path_spec(dir, Platform::Web) == seq!['a', 's', 's', 'e', 't', 's'],
{
    reveal_strlit("/../../assets");
    reveal_strlit("assets");
    let p = workspace_asset_path_spec(dir, Platform::Native);
    assert(p.subrange(0, dir.len() as int) =~= dir);
    assert(p.skip(dir.len() as int) =~= seq![
        '/',
        '.',
        '.',
        '/',
        '.',
        '.',
        '/',
        'a',
        's',
        's',
        'e',
        't',
        's',
    ]);
    assert("assets"@ =~= seq!['a', 's', 's', 'e', 't', 's']);
    let q = workspace_asset_path_spec(other, Platform::Native);
    if p == q {
        assert(dir.len() == other.len());
        assert(q.subrange(0, other.len() as int) =~= other);
    }
}

/// The primary window of a sketch.
pub struct WindowSpec {
    /// Window title.
    pub title: String,
    /// Width in logical pixels.
    pub width: u32,
    /// Height in logical pixels.
    pub height: u32,
    /// On the web, the selector of the page canvas the window draws into.
    /// `None` for a native window.
    pub web_canvas: Option<String>,
    /// Whether the window resizes to fit the parent of its page canvas.
    pub fit_canvas_to_parent: bool,
    /// Whether the window keeps the page from handling input events itself.
    pub prevent_default_event_handling: bool,
}

/// The primary window of a sketch titled `title`, `width` by `height`.
pub fn sketch_window(title: &str, width: u32, height: u32, platform: Platform) -> (window: WindowSpec)
    ensures
        window.title@ == title@,
        window.width == width,
        window.height == height,
        platform == Platform::Native ==> window.web_canvas is None,
        platform == Platform::Web ==> (window.web_canvas matches Some(c) && c@
            == WEB_CANVAS_SELECTOR@),
        window.fit_canvas_to_parent == (platform == Platform::Web),
        window.prevent_default_event_handling == (platform == Platform::Native),
{
    let web = platform == Platform::Web;
    let web_canvas = match platform {
        Platform::Native => None,
        Platform::Web => Some(String::from_str(WEB_CANVAS_SELECTOR)),
    };
    WindowSpec {
        title: String::from_str(title),
        width,
        height,
        web_canvas,
        fit_canvas_to_parent: web,
        prevent_default_event_handling: !web,
    }
}

/// The settings of the engine plugins of a sketch.
pub struct SketchPluginSettings {
    /// Folder assets are loaded from.
    pub asset_path: String,
    /// The primary window.
    pub window: WindowSpec,
    /// Whether audio output is set up; browsers get none.
    pub audio: bool,
}

/// The plugin settings of a sketch titled `title`, `width` by `height`, loading
/// assets from `asset_path`.
pub fn sketch_plugins(
    title: &str,
    width: u32,
    height: u32,
    asset_path: &str,
    platform: Platform,
) -> (settings: SketchPluginSettings)
    ensures
        settings.asset_path@ == asset_path@,
        settings.window.title@ == title@,
        settings.window.width == width,
        settings.window.height == height,
        platform == Platform::Native ==> settings.window.web_canvas is None,
        platform == Platform::Web ==> (settings.window.web_canvas matches Some(c)
            && c@ == WEB_CANVAS_SELECTOR@),
        settings.window.fit_canvas_to_parent == (platform == Platform::Web),
        settings.window.prevent_default_event_handling == (platform == Platform::Native),
        settings.audio == (platform == Platform::Native),
{
    SketchPluginSettings {
        asset_path: String::from_str(asset_path),
        window: sketch_window(title, width, height, platform),
        audio: platform == Platform::Native,
    }
}

} // verus!
