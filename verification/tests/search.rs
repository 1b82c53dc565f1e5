use rinton::search::{
    chat_request_body, image_reply, github_search_url, github_status_error, google_items, google_search_url, google_status_error,
    wiki_reply, wikipedia_api_url, wikipedia_title, GoogleItem, GoogleResponse, Pages, Query,
    Response,
};
use rinton::status::StatusCode;
use rinton::text::{chars_of, has_prefix, remove_all};

fn item(link: &str) -> GoogleItem {
    GoogleItem {
        link: link.to_string(),
    }
}

#[test]
fn web_search_address() {
    assert_eq!(
        google_search_url("id", "key", "rust 言語", "web", ""),
        "https://www.googleapis.com/customsearch/v1?cx=id&key=key&hl=ja&q=rust%20%E8%A8%80%E8%AA%9E"
    );
    assert_eq!(
        google_search_url("id", "key", "cat", "image", ""),
        "https://www.googleapis.com/customsearch/v1?cx=id&key=key&hl=ja&searchType=image&q=cat"
    );
    assert_eq!(
        google_search_url("id", "key", "a&b", "web", "ja.wikipedia.org"),
        "https://www.googleapis.com/customsearch/v1?cx=id&key=key&hl=ja&q=a%26b+site:ja.wikipedia.org"
    );
}

#[test]
fn web_search_status_messages() {
    assert_eq!(google_status_error(StatusCode::OK), None);
    assert_eq!(
        google_status_error(StatusCode::BadRequest),
        Some("リクエストが不正です。".to_string())
    );
    assert_eq!(
        google_status_error(StatusCode::Unauthorized),
        Some("認証に失敗しました。".to_string())
    );
    assert_eq!(
        google_status_error(StatusCode::Forbidden),
        Some("アクセス権限がありません。".to_string())
    );
    assert_eq!(
        google_status_error(StatusCode::NotFound),
        Some("リソースが見つかりませんでした。".to_string())
    );
    assert_eq!(
        google_status_error(StatusCode::TooManyRequests),
        Some(
            "Google Search API へのリクエスト超過です。しばらくしてからやり直してください。"
                .to_string()
        )
    );
    assert_eq!(
        google_status_error(StatusCode::InternalServerError),
        Some("予期しないエラーが発生しました。status: 500".to_string())
    );
    assert_eq!(
        google_status_error(StatusCode::Unsupported(418)),
        Some("予期しないエラーが発生しました。status: 418".to_string())
    );
}

#[test]
fn web_search_items() {
    let items = google_items(GoogleResponse {
        items: Some(vec![item("a"), item("b")]),
    })
    .unwrap();
    assert_eq!(items.len(), 2);
    assert_eq!(items[1].link, "b");
    assert_eq!(
        google_items(GoogleResponse { items: None }).unwrap_err(),
        "検索結果がありません。"
    );
}

#[test]
fn trend_list_address_and_messages() {
    assert_eq!(
        github_search_url("rust"),
        "https://api.github.com/search/repositories?q=language:rust&order=desc&per_page=10&since=daily"
    );
    assert_eq!(github_status_error(StatusCode::OK), None);
    assert_eq!(
        github_status_error(StatusCode::NotFound),
        Some("リソースが見つかりませんでした。".to_string())
    );
    assert_eq!(
        github_status_error(StatusCode::Forbidden),
        Some("エラーが発生しました。".to_string())
    );
}

#[test]
fn first_article_gives_the_title() {
    let items = vec![
        item("https://example.com/wiki/x"),
        item("http://ja.wikipedia.org/wiki/no"),
        item("https://ja.wikipedia.org/wiki/%E7%8C%AB"),
        item("https://ja.wikipedia.org/wiki/later"),
    ];
    assert_eq!(wikipedia_title(&items), Ok("%E7%8C%AB".to_string()));
    let items = vec![item(
        "https://ja.wikipedia.org/wiki/a/https://ja.wikipedia.org/wiki/b",
    )];
    assert_eq!(wikipedia_title(&items), Ok("a/b".to_string()));
    let items = vec![item("https://en.wikipedia.org/wiki/Cat")];
    assert_eq!(
        wikipedia_title(&items),
        Err("wikipedia の検索に失敗しました。".to_string())
    );
    assert_eq!(
        wikipedia_title(&vec![]),
        Err("wikipedia の検索に失敗しました。".to_string())
    );
}

#[test]
fn extract_address_and_reply() {
    assert_eq!(
        wikipedia_api_url("%E7%8C%AB"),
        "https://ja.wikipedia.org/w/api.php?format=json&action=query&prop=extracts&exintro&explaintext&redirects=1&titles=%E7%8C%AB"
    );
    let response = Response {
        query: Query {
            pages: vec![
                (
                    "1".to_string(),
                    Pages {
                        title: "ネコ".to_string(),
                        extract: "ネコは動物である。".to_string(),
                    },
                ),
                (
                    "2".to_string(),
                    Pages {
                        title: "other".to_string(),
                        extract: "other".to_string(),
                    },
                ),
            ],
        },
    };
    assert_eq!(
        wiki_reply("猫", "%E7%8C%AB", &response),
        "検索クエリ: 猫\n検索結果: 猫\nネコは動物である。\nhttps://ja.wikipedia.org/wiki/ネコ"
    );
}

#[test]
fn prefixes_and_removal() {
    let text = chars_of("abcabcab");
    assert!(has_prefix(&text, &chars_of("abc")));
    assert!(has_prefix(&text, &chars_of("")));
    assert!(!has_prefix(&text, &chars_of("bc")));
    assert!(!has_prefix(&chars_of("ab"), &chars_of("abc")));
    assert_eq!(remove_all(&text, &chars_of("bc")), "aaab");
    assert_eq!(remove_all(&text, &chars_of("")), "abcabcab");
    assert_eq!(remove_all(&chars_of("aaaa"), &chars_of("aa")), "");
    assert_eq!(remove_all(&chars_of("aaa"), &chars_of("aa")), "a");
    assert_eq!(remove_all(&chars_of("xyz"), &chars_of("q")), "xyz");
}

#[test]
fn command_replies() {
    assert_eq!(rinton::eval::run("(1 + 2) * 3"), "(1 + 2) * 3 = 9");
    assert_eq!(rinton::eval::run("1 + x"), "1 + x = Unexpected character: x");
    assert_eq!(rinton::eval::run("1 * *"), "1 * * = Unexpected token: Star");
    assert_eq!(rinton::levenshtein::run("kitten", "sitting"), "3");
    assert_eq!(rinton::levenshtein::run("", ""), "0");
    assert_eq!(rinton::levenshtein::run("abcdefghijkl", ""), "12");
}

#[test]
fn chat_request_and_image_reply() {
    assert_eq!(
        chat_request_body("hello", &vec![]),
        r#"{ "model": "gpt-3.5-turbo", "messages": [{ "role": "user", "content": "hello" }] }"#
    );
    assert_eq!(
        chat_request_body("こんにちは", &vec!["be kind".to_string(), "be brief".to_string()]),
        r#"{ "model": "gpt-3.5-turbo", "messages": [{ "role": "system", "content": "be kind" },{ "role": "system", "content": "be brief" },{ "role": "user", "content": "こんにちは" }] }"#
    );
    assert_eq!(
        image_reply("cat", &item("https://example.com/cat.png")),
        "検索クエリ:cat\nhttps://example.com/cat.png"
    );
}
