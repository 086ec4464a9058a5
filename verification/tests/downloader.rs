use recense::downloader::active_browser;
use recense::downloader::cache_directory;
use recense::downloader::candidates;
use recense::downloader::crop;
use recense::downloader::dump_command;
use recense::downloader::html_filename;
use recense::downloader::screenshot_command;
use recense::downloader::server_of;
use recense::downloader::server_url;
use recense::downloader::thumbnail;
use recense::downloader::thumbnail_filename;
use recense::downloader::window;
use recense::downloader::DownloadRequest;
use recense::downloader::Frame;
use recense::downloader::UriParts;
use recense::errors::FetchFailure;

fn request(url: &str, pin_id: &str, username: &str) -> DownloadRequest {
    DownloadRequest {
        url: String::from(url),
        pin_id: String::from(pin_id),
        username: String::from(username),
    }
}

#[test]
fn the_window_is_twice_as_wide_as_high() {
    assert_eq!(window(), Frame { width: 1280, height: 640 });
}

#[test]
fn the_scrollbar_is_cut_off_the_screenshot() {
    assert_eq!(crop(), Frame { width: 1260, height: 640 });
}

#[test]
fn the_thumbnail_is_a_fifth_of_the_cropped_screenshot() {
    assert_eq!(thumbnail(), Frame { width: 252, height: 128 });
}

#[test]
fn snapshot_files_are_named_after_user_and_pin() {
    let request = request("http://example.com", "abc", "alice");
    assert_eq!(cache_directory("alice"), "cache/alice");
    assert_eq!(thumbnail_filename(&request), "cache/alice/abc.jpg");
    assert_eq!(html_filename(&request), "cache/alice/abc.html");
}

#[test]
fn the_screenshot_command_runs_the_chosen_browser_with_the_window_size() {
    let command =
        screenshot_command("/usr/bin/chromium", &request("http://example.com/page", "abc", "alice"));
    assert_eq!(command.program, "/usr/bin/chromium");
    assert_eq!(
        command.args,
        vec!["--headless", "--window-size=1280,640", "--screenshot", "screenshot.png", "http://example.com/page"]
    );
}

#[test]
fn the_dump_command_runs_the_chosen_browser() {
    let command = dump_command("/usr/bin/chromium", &request("http://example.com/page", "abc", "alice"));
    assert_eq!(command.program, "/usr/bin/chromium");
    assert_eq!(command.args, vec!["--headless", "--disable-gpu", "--dump-dom", "http://example.com/page"]);
}

#[test]
fn the_first_installed_browser_is_chosen() {
    assert_eq!(
        candidates(),
        vec!["/usr/bin/google-chrome", "/usr/bin/chromium", "/usr/bin/chromium-browser"]
    );
    assert_eq!(active_browser(&vec![true, true, true]), Some(String::from("/usr/bin/google-chrome")));
    assert_eq!(active_browser(&vec![false, true, true]), Some(String::from("/usr/bin/chromium")));
    assert_eq!(active_browser(&vec![false, false, true]), Some(String::from("/usr/bin/chromium-browser")));
    assert_eq!(active_browser(&vec![false, false, false]), None);
    assert_eq!(active_browser(&vec![]), None);
    assert_eq!(active_browser(&vec![false]), None);
    assert_eq!(active_browser(&vec![false, false, false, true]), None);
}

#[test]
fn the_server_of_an_address_is_scheme_and_authority() {
    assert_eq!(server_url("http://example.com/a/b?x=1"), Ok(String::from("http://example.com")));
    assert_eq!(server_url("https://example.com"), Ok(String::from("https://example.com")));
    assert_eq!(
        server_url("https://user@host.org:8080/p#frag"),
        Ok(String::from("https://user@host.org:8080"))
    );
}

#[test]
fn an_address_without_scheme_is_taken_for_http() {
    assert_eq!(server_url("example.com"), Ok(String::from("http://example.com")));
    assert_eq!(server_url("example.com:8080"), Ok(String::from("http://example.com:8080")));
}

#[test]
fn an_address_without_server_cannot_be_fetched() {
    assert_eq!(server_url("/only/a/path"), Err(FetchFailure::EmptyUrl));
    assert_eq!(server_url(""), Err(FetchFailure::InvalidUrl));
    assert_eq!(server_url("http://exa mple.com"), Err(FetchFailure::InvalidUrl));
}

#[test]
fn the_server_is_put_together_from_the_parts() {
    let parts = UriParts { scheme: Some(String::from("ftp")), authority: Some(String::from("files.example")) };
    assert_eq!(server_of(Some(parts)), Ok(String::from("ftp://files.example")));
    let parts = UriParts { scheme: None, authority: Some(String::from("host")) };
    assert_eq!(server_of(Some(parts)), Ok(String::from("http://host")));
    let parts = UriParts { scheme: Some(String::from("http")), authority: None };
    assert_eq!(server_of(Some(parts)), Err(FetchFailure::EmptyUrl));
    assert_eq!(server_of(None), Err(FetchFailure::InvalidUrl));
}
