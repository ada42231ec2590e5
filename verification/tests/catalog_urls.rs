use selune::client::{base_url, providers_url, status_error};
use selune::DEFAULT_URL;

#[test]
fn default_url_is_the_placeholder() {
    assert_eq!(DEFAULT_URL, "https://catalog.example.invalid");
}

#[test]
fn base_url_drops_trailing_slashes() {
    assert_eq!(base_url("https://x.invalid/"), "https://x.invalid");
    assert_eq!(base_url("https://x.invalid///"), "https://x.invalid");
    assert_eq!(base_url("https://x.invalid/api"), "https://x.invalid/api");
    assert_eq!(base_url("///"), "");
    assert_eq!(base_url(""), "");
}

#[test]
fn providers_endpoint() {
    assert_eq!(providers_url("https://x.invalid"), "https://x.invalid/v2/providers");
    assert_eq!(providers_url(&base_url(DEFAULT_URL)), "https://catalog.example.invalid/v2/providers");
}

#[test]
fn only_200_is_success() {
    assert_eq!(status_error(200), None);
    assert_eq!(status_error(404), Some(404));
    assert_eq!(status_error(201), Some(201));
}

#[test]
fn base_url_is_stable() {
    for url in ["https://x.invalid//", "a/b/", "", "/"] {
        let once = base_url(url);
        assert_eq!(base_url(&once), once);
    }
}
