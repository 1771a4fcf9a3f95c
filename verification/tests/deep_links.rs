use std::convert::TryFrom;
use stremio_core::deep_links::{request_from_path, request_to_path, LibraryDeepLinks};
use stremio_core::models::library_with_filters::{LibraryRequest, LibraryRequestPage, Sort};

#[test]
fn library_deep_links_string() {
    let root = "library".to_string();
    let ldl = LibraryDeepLinks::try_from(&root).unwrap();
    assert_eq!(ldl.library, "stremio:///library".to_string());
}

#[test]
fn library_deep_links_request_type() {
    let root = "library".to_string();
    let request = LibraryRequest {
        type_: Some("movie".to_string()),
        sort: Sort::LastWatched,
        page: Default::default(),
    };
    let ldl = LibraryDeepLinks::try_from((&root, &request)).unwrap();
    assert_eq!(
        ldl.library,
        "stremio:///library/movie?sort=lastwatched&page=1".to_string()
    );
}

#[test]
fn library_deep_links_request_no_type() {
    let root = "library".to_string();
    let request = LibraryRequest {
        type_: None,
        sort: Sort::LastWatched,
        page: Default::default(),
    };
    let ldl = LibraryDeepLinks::try_from((&root, &request)).unwrap();
    assert_eq!(
        ldl.library,
        "stremio:///library?sort=lastwatched&page=1".to_string()
    );
}

fn request(type_: Option<&str>, sort: Sort, page: usize) -> LibraryRequest {
    LibraryRequest {
        type_: type_.map(|tag| tag.to_string()),
        sort,
        page: LibraryRequestPage::new(page).unwrap(),
    }
}

#[test]
fn request_with_type_is_written_and_read_back() {
    let asked = request(Some("movie"), Sort::LastWatched, 1);
    let path = request_to_path(&asked);
    assert_eq!(path, "movie?sort=lastwatched&page=1");
    assert_eq!(request_from_path(&path), Some(asked));
}

#[test]
fn request_without_type_is_written_and_read_back() {
    let asked = request(None, Sort::LastWatched, 1);
    let path = request_to_path(&asked);
    assert_eq!(path, "?sort=lastwatched&page=1");
    assert_eq!(request_from_path(&path), Some(asked));
}

#[test]
fn every_sort_has_its_word() {
    assert_eq!(
        request_to_path(&request(None, Sort::LastWatched, 2)),
        "?sort=lastwatched&page=2"
    );
    assert_eq!(
        request_to_path(&request(None, Sort::Name, 2)),
        "?sort=name&page=2"
    );
    assert_eq!(
        request_to_path(&request(None, Sort::Watched, 2)),
        "?sort=watched&page=2"
    );
    assert_eq!(
        request_to_path(&request(None, Sort::NotWatched, 2)),
        "?sort=notwatched&page=2"
    );
}

#[test]
fn every_request_is_read_back() {
    for sort in [Sort::LastWatched, Sort::Name, Sort::Watched, Sort::NotWatched] {
        for type_ in [None, Some("series"), Some("été/2")] {
            for page in [1, 9, 10, 250, usize::MAX] {
                let asked = request(type_, sort, page);
                assert_eq!(request_from_path(&request_to_path(&asked)), Some(asked));
            }
        }
    }
}

#[test]
fn page_zero_is_refused() {
    assert!(LibraryRequestPage::new(0).is_none());
    assert_eq!(request_from_path("movie?sort=name&page=0"), None);
}

#[test]
fn page_numbers_are_positive() {
    assert_eq!(LibraryRequestPage::new(1).unwrap().get(), 1);
    assert_eq!(LibraryRequestPage::new(42).unwrap().get(), 42);
    assert_eq!(LibraryRequestPage::default().get(), 1);
}

#[test]
fn malformed_paths_are_refused() {
    assert_eq!(request_from_path(""), None);
    assert_eq!(request_from_path("movie"), None);
    assert_eq!(request_from_path("movie?sort=name"), None);
    assert_eq!(request_from_path("movie?sort=name&page="), None);
    assert_eq!(request_from_path("movie?sort=name&page=01"), None);
    assert_eq!(request_from_path("movie?sort=name&page=1&"), None);
    assert_eq!(request_from_path("movie?sort=Name&page=1"), None);
    assert_eq!(request_from_path("movie?sort=recent&page=1"), None);
    assert_eq!(request_from_path("movie?page=1&sort=name"), None);
    assert_eq!(request_from_path("movie?sort=name&page=-1"), None);
    let mut too_far = "movie?sort=name&page=".to_string();
    too_far.push_str(&usize::MAX.to_string());
    too_far.push('0');
    assert_eq!(request_from_path(&too_far), None);
}

#[test]
fn link_with_another_sort_and_page() {
    let root = "library".to_string();
    let asked = request(Some("series"), Sort::NotWatched, 12);
    let links = LibraryDeepLinks::from((&root, &asked));
    assert_eq!(
        links.library,
        "stremio:///library/series?sort=notwatched&page=12"
    );
}
