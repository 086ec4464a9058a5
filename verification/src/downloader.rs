//! The snapshot worker: what it runs for a request, and in which order.
//!
//! For every request the worker takes a screenshot of the page and makes a
//! thumbnail of it, then dumps the rendered document, makes its
//! root-relative links absolute and writes it out. The two branches fail
//! apart: a failure in the first does not stop the second. The worker
//! itself only decides; the caller carries out each action and reports how
//! it went.
use vstd::prelude::*;
use vstd::string::*;

use crate::errors::FetchFailure;
use crate::pins::optional_view;
use crate::text::decimal;
use crate::text::decimal_string;
use crate::text::string_views;

verus! {

/// A request to capture the page behind a pin. It is handed over once and
/// never stored.
#[derive(Debug)]
pub struct DownloadRequest {
    pub url: String,
    pub pin_id: String,
    pub username: String,
}

/// A request as plain text.
pub ghost struct RequestView {
    pub url: Seq<char>,
    pub pin_id: Seq<char>,
    pub username: Seq<char>,
}

impl View for DownloadRequest {
    type V = RequestView;

    open spec fn view(&self) -> RequestView {
        RequestView { url: self.url@, pin_id: self.pin_id@, username: self.username@ }
    }
}

/// The requests of a vector as plain text.
pub open spec fn request_views(requests: Seq<DownloadRequest>) -> Seq<RequestView> {
    requests.map_values(|request: DownloadRequest| request@)
}

/// Width of the browser window, in pixels.
pub const WINDOW_WIDTH: u32 = 1280;

/// The window is this many times as wide as it is high.
pub const WIDTH_PER_HEIGHT: u32 = 2;

/// The thumbnail is the cropped screenshot scaled down by this factor.
pub const THUMB_RATIO: u32 = 5;

/// Width of the scrollbar that is cut off the screenshot, in pixels.
pub const SCROLLBAR_WIDTH: u32 = 20;

/// A width and a height in pixels.
#[derive(Debug, Clone, Copy, PartialEq, Eq, Structural)]
pub struct Frame {
    pub width: u32,
    pub height: u32,
}

/// The browser window: 1280 by 640.
pub open spec fn window_frame() -> Frame {
    Frame { width: WINDOW_WIDTH, height: (WINDOW_WIDTH / WIDTH_PER_HEIGHT) as u32 }
}

/// The part of the screenshot that is kept, from its top left corner: the
/// window without the scrollbar, 1260 by 640.
pub open spec fn crop_frame() -> Frame {
    Frame {
        width: (window_frame().width - SCROLLBAR_WIDTH) as u32,
        height: window_frame().height,
    }
}

/// The thumbnail: the kept part scaled down, 252 by 128.
pub open spec fn thumbnail_frame() -> Frame {
    Frame {
        width: (crop_frame().width / THUMB_RATIO) as u32,
        height: (crop_frame().height / THUMB_RATIO) as u32,
    }
}

/// The browser window.
pub fn window() -> (frame: Frame)
    ensures
        frame == window_frame(),
        frame.width == 1280,
        frame.height == 640,
{
    Frame { width: WINDOW_WIDTH, height: WINDOW_WIDTH / WIDTH_PER_HEIGHT }
}

/// The part of the screenshot that is kept.
pub fn crop() -> (frame: Frame)
    ensures
        frame == crop_frame(),
        frame.width == 1260,
        frame.height == 640,
{
    let window = window();
    Frame { width: window.width - SCROLLBAR_WIDTH, height: window.height }
}

/// The size of the thumbnail.
pub fn thumbnail() -> (frame: Frame)
    ensures
        frame == thumbnail_frame(),
        frame.width == 252,
        frame.height == 128,
{
    let kept = crop();
    Frame { width: kept.width / THUMB_RATIO, height: kept.height / THUMB_RATIO }
}

/// A program to run and its arguments.
#[derive(Debug)]
pub struct BrowserCommand {
    pub program: String,
    pub args: Vec<String>,
}

/// A command as plain text.
pub ghost struct CommandView {
    pub program: Seq<char>,
    pub args: Seq<Seq<char>>,
}

impl View for BrowserCommand {
    type V = CommandView;

    open spec fn view(&self) -> CommandView {
        CommandView { program: self.program@, args: string_views(self.args@) }
    }
}

/// The file that the browser writes a screenshot to.
pub open spec fn screenshot_file() -> Seq<char> {
    "screenshot.png"@
}

/// The directory of a user's snapshots.
pub open spec fn cache_directory_path(username: Seq<char>) -> Seq<char> {
    "cache/"@ + username
}

/// The thumbnail of a pin.
pub open spec fn thumbnail_path(request: RequestView) -> Seq<char> {
    "cache/"@ + request.username + "/"@ + request.pin_id + ".jpg"@
}

/// The rewritten document of a pin.
pub open spec fn page_path(request: RequestView) -> Seq<char> {
    "cache/"@ + request.username + "/"@ + request.pin_id + ".html"@
}

/// The command that takes a screenshot of a page with the given browser.
pub open spec fn screenshot_command_for(browser: Seq<char>, url: Seq<char>) -> CommandView {
    CommandView {
        program: browser,
        args: seq![
            "--headless"@,
            "--window-size="@ + decimal(window_frame().width as int) + ","@ + decimal(
                window_frame().height as int,
            ),
            "--screenshot"@,
            screenshot_file(),
            url,
        ],
    }
}

/// The command that dumps the rendered document of a page.
pub open spec fn dump_command_for(browser: Seq<char>, url: Seq<char>) -> CommandView {
    CommandView {
        program: browser,
        args: seq!["--headless"@, "--disable-gpu"@, "--dump-dom"@, url],
    }
}

/// The directory of a user's snapshots.
pub fn cache_directory(username: &str) -> (path: String)
    ensures
        path@ == cache_directory_path(username@),
{
    let mut path = String::from_str("cache/");
    path.append(username);
    path
}

/// The file of a pin's thumbnail.
pub fn thumbnail_filename(request: &DownloadRequest) -> (path: String)
    ensures
        path@ == thumbnail_path(request@),
{
    let mut path = String::from_str("cache/");
    path.append(request.username.as_str());
    path.append("/");
    path.append(request.pin_id.as_str());
    path.append(".jpg");
    path
}

/// The file of a pin's rewritten document.
pub fn html_filename(request: &DownloadRequest) -> (path: String)
    ensures
        path@ == page_path(request@),
{
    let mut path = String::from_str("cache/");
    path.append(request.username.as_str());
    path.append("/");
    path.append(request.pin_id.as_str());
    path.append(".html");
    path
}

/// The command that takes a screenshot of the requested page with the
/// given browser.
pub fn screenshot_command(browser_cmd: &str, request: &DownloadRequest) -> (command:
    BrowserCommand)
    ensures
        command@ == screenshot_command_for(browser_cmd@, request.url@),
        command@.program == browser_cmd@,
{
    let frame = window();
    let mut size = String::from_str("--window-size=");
    size.append(decimal_string(frame.width as i128).as_str());
    size.append(",");
    size.append(decimal_string(frame.height as i128).as_str());
    let mut args: Vec<String> = Vec::new();
    args.push(String::from_str("--headless"));
    args.push(size);
    args.push(String::from_str("--screenshot"));
    args.push(String::from_str("screenshot.png"));
    args.push(request.url.clone());
    let command = BrowserCommand { program: String::from_str(browser_cmd), args };
    assert(command@.args =~= screenshot_command_for(browser_cmd@, request.url@).args);
    command
}

/// The command that dumps the rendered document of the requested page
/// with the given browser.
pub fn dump_command(browser_cmd: &str, request: &DownloadRequest) -> (command: BrowserCommand)
    ensures
        command@ == dump_command_for(browser_cmd@, request.url@),
        command@.program == browser_cmd@,
{
    let mut args: Vec<String> = Vec::new();
    args.push(String::from_str("--headless"));
    args.push(String::from_str("--disable-gpu"));
    args.push(String::from_str("--dump-dom"));
    args.push(request.url.clone());
    let command = BrowserCommand { program: String::from_str(browser_cmd), args };
    assert(command@.args =~= dump_command_for(browser_cmd@, request.url@).args);
    command
}

/// The browsers that can take a screenshot and dump a document, in order
/// of preference.
pub open spec fn browser_candidates() -> Seq<Seq<char>> {
    seq!["/usr/bin/google-chrome"@, "/usr/bin/chromium"@, "/usr/bin/chromium-browser"@]
}

/// The place of the first candidate that is installed, if one is.
/// `installed[k]` says whether candidate `k` exists.
pub open spec fn first_installed(installed: Seq<bool>) -> Option<int> {
    if exists|k: int| is_first_installed(installed, k) {
        Some(choose|k: int| is_first_installed(installed, k))
    } else {
        None
    }
}

/// Candidate `k` is installed and no candidate before it is.
pub open spec fn is_first_installed(installed: Seq<bool>, k: int) -> bool {
    &&& 0 <= k < installed.len()
    &&& k < browser_candidates().len()
    &&& installed[k]
    &&& forall|j: int| 0 <= j < k ==> !installed[j]
}

/// The candidates, in order of preference.
pub fn candidates() -> (list: Vec<String>)
    ensures
        string_views(list@) == browser_candidates(),
{
    let mut list: Vec<String> = Vec::new();
    list.push(String::from_str("/usr/bin/google-chrome"));
    list.push(String::from_str("/usr/bin/chromium"));
    list.push(String::from_str("/usr/bin/chromium-browser"));
    assert(string_views(list@) =~= browser_candidates());
    list
}

/// Picks the browser: the first candidate that is installed.
pub fn active_browser(installed: &Vec<bool>) -> (browser: Option<String>)
    ensures
        match first_installed(installed@) {
            Some(k) => optional_view(browser) == Some(browser_candidates()[k]),
            None => browser is None,
        },
{
    let list = candidates();
    let mut k: usize = 0;
    while k < list.len() && k < installed.len()
        invariant
            k <= list@.len(),
            k <= installed@.len(),
            string_views(list@) == browser_candidates(),
            forall|j: int| 0 <= j < k ==> !installed@[j],
        decreases list@.len() - k,
    {
        if installed[k] {
            proof {
                assert(is_first_installed(installed@, k as int));
                let chosen = choose|c: int| is_first_installed(installed@, c);
                assert(chosen == k) by {
                    if chosen < k {
                        assert(!installed@[chosen]);
                    } else if chosen > k {
                        assert(installed@[k as int]);
                    }
                }
                assert(string_views(list@)[k as int] == list@[k as int]@);
            }
            return Some(list[k].clone());
        }
        k += 1;
    }
    proof {
        if exists|c: int| is_first_installed(installed@, c) {
            let c = choose|c: int| is_first_installed(installed@, c);
            assert(!installed@[c]);
        }
    }
    None
}

/// The scheme and the authority of an address, where it names them.
#[derive(Debug)]
pub struct UriParts {
    pub scheme: Option<String>,
    pub authority: Option<String>,
}

/// The parts of an address as plain text.
pub ghost struct UriView {
    pub scheme: Option<Seq<char>>,
    pub authority: Option<Seq<char>>,
}

impl View for UriParts {
    type V = UriView;

    open spec fn view(&self) -> UriView {
        UriView { scheme: optional_view(self.scheme), authority: optional_view(self.authority) }
    }
}

/// What the URI parser makes of an address: its parts, or nothing where the
/// address is no URI.
pub uninterp spec fn parsed_uri(url: Seq<char>) -> Option<UriView>;

#[verifier::external_type_specification]
#[verifier::external_body]
pub struct ExInvalidUri(http::uri::InvalidUri);

/// Parses `url` as an `http::Uri` (`FromStr`) and reads `scheme_str` and
/// `authority` off the result. Trusted: the parse depends on the text alone,
/// so its parts, or its failure, are the named ones.
#[verifier::external_body]
fn parse_uri(url: &str) -> (parsed: Result<UriParts, http::uri::InvalidUri>)
    ensures
        match parsed {
            Ok(parts) => parsed_uri(url@) == Some(parts@),
            Err(_) => parsed_uri(url@) is None,
        },
{
    let uri = url.parse::<http::Uri>()?;
    Ok(
        UriParts {
            scheme: uri.scheme_str().map(String::from),
            authority: uri.authority().map(|authority| authority.as_str().to_string()),
        },
    )
}

/// The address of the server that an address points into: its scheme,
/// `http` where it names none, `://`, and its authority. An address that is
/// no URI or names no authority has none.
pub open spec fn origin(parsed: Option<UriView>) -> Result<Seq<char>, FetchFailure> {
    match parsed {
        None => Err(FetchFailure::InvalidUrl),
        Some(parts) => match parts.authority {
            None => Err(FetchFailure::EmptyUrl),
            Some(authority) => Ok(
                match parts.scheme {
                    Some(scheme) => scheme,
                    None => "http"@,
                } + "://"@ + authority,
            ),
        },
    }
}

/// The server's address as plain text.
pub open spec fn origin_outcome(outcome: Result<String, FetchFailure>) -> Result<
    Seq<char>,
    FetchFailure,
> {
    match outcome {
        Ok(server) => Ok(server@),
        Err(failure) => Err(failure),
    }
}

/// The parts of an optional parse as plain text.
pub open spec fn optional_parts(parts: Option<UriParts>) -> Option<UriView> {
    match parts {
        Some(parts) => Some(parts@),
        None => None,
    }
}

/// The server's address for the parts of an address; `None` stands for an
/// address that is no URI.
pub fn server_of(parts: Option<UriParts>) -> (server: Result<String, FetchFailure>)
    ensures
        origin_outcome(server) == origin(optional_parts(parts)),
{
    let parts = match parts {
        None => {
            return Err(FetchFailure::InvalidUrl);
        },
        Some(parts) => parts,
    };
    let authority = match parts.authority {
        None => {
            return Err(FetchFailure::EmptyUrl);
        },
        Some(authority) => authority,
    };
    let mut server = match parts.scheme {
        Some(scheme) => scheme,
        None => String::from_str("http"),
    };
    server.append("://");
    server.append(authority.as_str());
    Ok(server)
}

/// The address of the server behind `url`.
pub fn server_url(url: &str) -> (server: Result<String, FetchFailure>)
    ensures
        origin_outcome(server) == origin(parsed_uri(url@)),
{
    match parse_uri(url) {
        Ok(parts) => server_of(Some(parts)),
        Err(_) => server_of(None),
    }
}

} // verus!
