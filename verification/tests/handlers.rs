use minihttp::files::{answer, file_for, guard, hand_on, locate, Plan};
use minihttp::http::request::Request;
use minihttp::http::status_code::StatusCode;
use minihttp::static_handler::StaticHandler;
use minihttp::website_handler::WebsiteHandler;
use std::path::PathBuf;

fn request(buffer: &[u8]) -> Request<'_> {
    Request::parse(buffer).unwrap()
}

fn file_of(plan: Plan<'_>) -> &str {
    match plan {
        Plan::Read(file) => file,
        Plan::Respond(response) => panic!("answered {:?}", response),
    }
}

#[test]
fn root_path_is_answered_by_the_index_page() {
    assert_eq!(file_for("/"), "index.html");
    assert_eq!(file_for("/index.html"), "/index.html");
    assert_eq!(file_for("/a/b.css"), "/a/b.css");
    assert_eq!(file_for(""), "");
    assert_eq!(file_for("//"), "//");
}

#[test]
fn file_is_looked_for_under_the_root() {
    assert_eq!(locate("/srv/public", "index.html"), "/srv/public/index.html");
    assert_eq!(locate("/srv/public", "/a/b.css"), "/srv/public//a/b.css");
    assert_eq!(locate("", ""), "/");
    assert_eq!(locate("r\u{f6}\u{f6}t", "\u{65e5}"), "r\u{f6}\u{f6}t/\u{65e5}");
}

#[test]
fn path_outside_the_root_is_not_handed_on() {
    let inside = PathBuf::from("/srv/public/a/b.css");
    assert_eq!(guard("/srv/public", Some(inside.clone())), Some(inside));
    let root = PathBuf::from("/srv/public");
    assert_eq!(guard("/srv/public", Some(root.clone())), Some(root));
    assert_eq!(guard("/srv/public", Some(PathBuf::from("/etc/passwd"))), None);
    assert_eq!(guard("/srv/public", Some(PathBuf::from("/srv"))), None);
    assert_eq!(guard("/srv/public", Some(PathBuf::from("/srv/publicity/a"))), None);
    assert_eq!(guard("/srv/public", None), None);
}

#[test]
fn resolved_path_is_handed_on_only_under_the_root() {
    let path = PathBuf::from("/srv/public/a");
    assert_eq!(hand_on(path.clone(), true), Some(path.clone()));
    assert_eq!(hand_on(path, false), None);
}

#[test]
fn missing_file_is_not_found() {
    let found = answer(Some(String::from("text")));
    assert_eq!(found.status_code, StatusCode::OK);
    assert_eq!(found.body(), Some("text"));
    let empty = answer(Some(String::new()));
    assert_eq!(empty.status_code, StatusCode::OK);
    assert_eq!(empty.body(), Some(""));
    let missing = answer(None);
    assert_eq!(missing.status_code, StatusCode::NotFound);
    assert_eq!(missing.body(), None);
}

#[test]
fn static_handler_does_not_find_a_missing_index_page() {
    let handler = StaticHandler::new(String::from("/srv/public"));
    let root = request(b"GET / HTTP/1.1\r\n\r\n");
    let missing = handler.respond(&root, None);
    assert_eq!(missing.status_code, StatusCode::NotFound);
    assert_eq!(missing.body(), None);
    assert_eq!(missing.serialize(), "HTTP/1.1 404 Not Found\r\n\r\n");
    let index = handler.respond(&root, Some(String::from("<html>")));
    assert_eq!(index.status_code, StatusCode::OK);
    assert_eq!(index.body(), Some("<html>"));
}

#[test]
fn static_handler_reads_the_file_that_the_path_names() {
    let handler = StaticHandler::new(String::from("/srv/public"));
    assert_eq!(handler.public_path(), "/srv/public");
    let root = request(b"GET / HTTP/1.1\r\n\r\n");
    let page = request(b"POST /page.html?x=1 HTTP/1.1\r\n\r\n");
    assert_eq!(file_of(handler.plan(&root)), "index.html");
    assert_eq!(file_of(handler.plan(&page)), "/page.html");
    assert_eq!(locate(handler.public_path(), "index.html"), "/srv/public/index.html");
    let inside = PathBuf::from("/srv/public/page.html");
    assert_eq!(guard(handler.public_path(), Some(inside.clone())), Some(inside));
    assert_eq!(guard(handler.public_path(), Some(PathBuf::from("/srv/secret/page.html"))), None);
    let answered = handler.respond(&page, Some(String::from("page")));
    assert_eq!(answered.status_code, StatusCode::OK);
    assert_eq!(answered.body(), Some("page"));
    let missing = handler.respond(&page, None);
    assert_eq!(missing.status_code, StatusCode::NotFound);
    assert_eq!(missing.body(), None);
    assert_eq!(handler.respond(&root, None).status_code, StatusCode::NotFound);
}

#[test]
fn website_greets_and_serves_files_for_get_alone() {
    let handler = WebsiteHandler::new(String::from("site"));
    assert_eq!(handler.public_path(), "site");
    let hello = request(b"GET /hello HTTP/1.1\r\n\r\n");
    match handler.plan(&hello) {
        Plan::Respond(response) => {
            assert_eq!(response.status_code, StatusCode::OK);
            assert_eq!(response.body(), Some("Hello World!"));
        },
        Plan::Read(file) => panic!("asked for {}", file),
    }
    let root = request(b"GET / HTTP/1.1\r\n\r\n");
    assert_eq!(file_of(handler.plan(&root)), "index.html");
    let page = request(b"GET /hello/page.html HTTP/1.1\r\n\r\n");
    assert_eq!(file_of(handler.plan(&page)), "/hello/page.html");
    for buffer in [
        &b"POST /hello HTTP/1.1\r\n\r\n"[..],
        &b"HEAD / HTTP/1.1\r\n\r\n"[..],
        &b"DELETE /page.html HTTP/1.1\r\n\r\n"[..],
    ] {
        let parsed = request(buffer);
        match handler.plan(&parsed) {
            Plan::Respond(response) => {
                assert_eq!(response.status_code, StatusCode::NotFound);
                assert_eq!(response.body(), None);
            },
            Plan::Read(file) => panic!("asked for {}", file),
        }
    }
    assert_eq!(locate(handler.public_path(), "/hello/page.html"), "site//hello/page.html");
    assert_eq!(handler.respond(&page, None).status_code, StatusCode::NotFound);
    assert_eq!(handler.respond(&page, None).body(), None);
    assert_eq!(handler.respond(&page, Some(String::from("p"))).status_code, StatusCode::OK);
    assert_eq!(handler.respond(&page, Some(String::from("p"))).body(), Some("p"));
}

#[test]
fn website_answers_the_root_path_with_success_in_either_case() {
    let handler = WebsiteHandler::new(String::from("site"));
    let root = request(b"GET / HTTP/1.1\r\n\r\n");
    let index = handler.respond(&root, Some(String::from("<html>")));
    assert_eq!(index.status_code, StatusCode::OK);
    assert_eq!(index.body(), Some("<html>"));
    let no_index = handler.respond(&root, None);
    assert_eq!(no_index.status_code, StatusCode::OK);
    assert_eq!(no_index.body(), None);
}
