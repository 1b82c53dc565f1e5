//! The rules of the search commands: the addresses they ask, what they say of
//! a status, and what they take from an answer.

use crate::number::{decimal, push_decimal};
use crate::percent::{encode, encode_bytes, percent_decoded, try_percent_decode};
use crate::status::{code_of, StatusCode};
use crate::text::{chars_of, has_prefix, remove_all, starts_with, without};
use vstd::prelude::*;
use vstd::string::StringExecFns;
use vstd::utf8::encode_utf8;

verus! {

/// One result of a web search.
#[derive(Debug)]
pub struct GoogleItem {
    pub link: String,
}

/// The answer to a web search.
#[derive(Debug)]
pub struct GoogleResponse {
    pub items: Option<Vec<GoogleItem>>,
}

/// The owner of a repository.
pub struct Owner {
    pub avatar_url: String,
}

/// One repository of the trend list.
pub struct GithubTrendItem {
    pub full_name: String,
    pub html_url: String,
    pub description: String,
    pub stargazers_count: u32,
    pub owner: Owner,
}

/// One page of the encyclopedia.
pub struct Pages {
    pub title: String,
    pub extract: String,
}

/// The pages of an answer, each with its key, in the order of the answer.
pub struct Query {
    pub pages: Vec<(String, Pages)>,
}

/// The answer of the encyclopedia.
pub struct Response {
    pub query: Query,
}

/// Where the articles of the encyclopedia stand.
pub open spec fn article_prefix() -> Seq<char> {
    "https://ja.wikipedia.org/wiki/"@
}

/// The address of a web search for `q`: the text is percent-encoded, an image
/// search says so, and a site, where one is given, narrows the search.
pub open spec fn google_url(
    search_engine_id: Seq<char>,
    api_key: Seq<char>,
    q: Seq<char>,
    search_type: Seq<char>,
    site: Seq<char>,
) -> Seq<char> {
    "https://www.googleapis.com/customsearch/v1?cx="@ + search_engine_id + "&key="@ + api_key
        + "&hl=ja"@ + (if search_type == "image"@ {
        "&searchType=image"@
    } else {
        Seq::empty()
    }) + "&q="@ + encode_bytes(encode_utf8(q)) + (if site.len() == 0 {
        Seq::empty()
    } else {
        "+site:"@ + site
    })
}

/// What a web search says of a status: nothing of `OK`, and a message of every
/// other status.
pub open spec fn google_status_text(status: StatusCode) -> Option<Seq<char>> {
    match status {
        StatusCode::OK => None,
        StatusCode::BadRequest => Some("リクエストが不正です。"@),
        StatusCode::Unauthorized => Some("認証に失敗しました。"@),
        StatusCode::Forbidden => Some("アクセス権限がありません。"@),
        StatusCode::NotFound => Some("リソースが見つかりませんでした。"@),
        StatusCode::TooManyRequests => Some(
            "Google Search API へのリクエスト超過です。しばらくしてからやり直してください。"@,
        ),
        other => Some(
            "予期しないエラーが発生しました。status: "@ + decimal(code_of(other) as nat),
        ),
    }
}

/// The address of the trend list of a language.
pub open spec fn github_url(language: Seq<char>) -> Seq<char> {
    "https://api.github.com/search/repositories?q=language:"@ + language
        + "&order=desc&per_page=10&since=daily"@
}

/// What the trend list says of a status.
pub open spec fn github_status_text(status: StatusCode) -> Option<Seq<char>> {
    match status {
        StatusCode::OK => None,
        StatusCode::NotFound => Some("リソースが見つかりませんでした。"@),
        _ => Some("エラーが発生しました。"@),
    }
}

/// The index of the first item at or after `from` whose link is an article.
pub open spec fn first_article_from(links: Seq<Seq<char>>, from: int) -> Option<int>
    decreases links.len() - from,
{
    if from < 0 || from >= links.len() {
        None
    } else if starts_with(links[from], article_prefix()) {
        Some(from)
    } else {
        first_article_from(links, from + 1)
    }
}

/// The links of the items.
pub open spec fn links_of(items: Seq<GoogleItem>) -> Seq<Seq<char>> {
    Seq::new(items.len(), |i: int| items[i].link@)
}

/// The title of the first article among the links: its link without the
/// prefix of the articles.
pub open spec fn article_title(links: Seq<Seq<char>>) -> Option<Seq<char>> {
    match first_article_from(links, 0) {
        Some(i) => Some(without(links[i], article_prefix())),
        None => None,
    }
}

/// The address that gives the extract of an article.
pub open spec fn extract_url(title: Seq<char>) -> Seq<char> {
    "https://ja.wikipedia.org/w/api.php?format=json&action=query&prop=extracts&exintro&explaintext&redirects=1&titles="@
        + title
}

/// The reply of the encyclopedia command.
pub open spec fn wiki_reply_text(
    search_text: Seq<char>,
    title: Seq<char>,
    page_extract: Seq<char>,
    page_title: Seq<char>,
) -> Seq<char> {
    "検索クエリ: "@ + search_text + "\n検索結果: "@ + title + "\n"@ + page_extract
        + "\nhttps://ja.wikipedia.org/wiki/"@ + page_title
}

/// The address of a web search.
pub fn google_search_url(
    search_engine_id: &str,
    api_key: &str,
    q: &str,
    search_type: &str,
    site: &str,
) -> (url: String)
    ensures
        url@ == google_url(search_engine_id@, api_key@, q@, search_type@, site@),
{
    let mut url = "https://www.googleapis.com/customsearch/v1?cx=".to_owned();
    url.append(search_engine_id);
    url.append("&key=");
    url.append(api_key);
    url.append("&hl=ja");
    if search_type.to_owned() == "image".to_owned() {
        url.append("&searchType=image");
    }
    url.append("&q=");
    url.append(encode(q).as_str());
    if !site.is_empty() {
        url.append("+site:");
        url.append(site);
    }
    assert(url@ =~= google_url(search_engine_id@, api_key@, q@, search_type@, site@));
    url
}

/// What a web search says of a status.
pub fn google_status_error(status: StatusCode) -> (r: Option<String>)
    ensures
        match r {
            Some(message) => google_status_text(status) == Some(message@),
            None => google_status_text(status) is None,
        },
{
    match status {
        StatusCode::OK => None,
        StatusCode::BadRequest => Some("リクエストが不正です。".to_owned()),
        StatusCode::Unauthorized => Some("認証に失敗しました。".to_owned()),
        StatusCode::Forbidden => Some("アクセス権限がありません。".to_owned()),
        StatusCode::NotFound => Some("リソースが見つかりませんでした。".to_owned()),
        StatusCode::TooManyRequests => Some(
            "Google Search API へのリクエスト超過です。しばらくしてからやり直してください。".to_owned(),
        ),
        other => {
            let mut message = "予期しないエラーが発生しました。status: ".to_owned();
            push_decimal(&mut message, other.as_u16() as u64);
            Some(message)
        },
    }
}

/// The items of an answer, or the message that there are none.
pub fn google_items(body: GoogleResponse) -> (r: Result<Vec<GoogleItem>, String>)
    ensures
        match r {
            Ok(items) => body.items == Some(items),
            Err(message) => body.items is None && message@ == "検索結果がありません。"@,
        },
{
    match body.items {
        Some(items) => Ok(items),
        None => Err("検索結果がありません。".to_owned()),
    }
}

/// The address of the trend list of a language.
pub fn github_search_url(language: &str) -> (url: String)
    ensures
        url@ == github_url(language@),
{
    let mut url = "https://api.github.com/search/repositories?q=language:".to_owned();
    url.append(language);
    url.append("&order=desc&per_page=10&since=daily");
    url
}

/// What the trend list says of a status.
pub fn github_status_error(status: StatusCode) -> (r: Option<String>)
    ensures
        match r {
            Some(message) => github_status_text(status) == Some(message@),
            None => github_status_text(status) is None,
        },
{
    match status {
        StatusCode::OK => None,
        StatusCode::NotFound => Some("リソースが見つかりませんでした。".to_owned()),
        _ => Some("エラーが発生しました。".to_owned()),
    }
}

/// The title of the first article among the items, or the message that there
/// is none.
pub fn wikipedia_title(items: &Vec<GoogleItem>) -> (r: Result<String, String>)
    ensures
        match r {
            Ok(title) => article_title(links_of(items@)) == Some(title@),
            Err(message) => article_title(links_of(items@)) is None && message@
                == "wikipedia の検索に失敗しました。"@,
        },
{
    let prefix = chars_of("https://ja.wikipedia.org/wiki/");
    let mut i: usize = 0;
    while i < items.len()
        invariant
            i <= items@.len(),
            prefix@ == article_prefix(),
            first_article_from(links_of(items@), 0) == first_article_from(
                links_of(items@),
                i as int,
            ),
        decreases items@.len() - i,
    {
        let link = chars_of(items[i].link.as_str());
        assert(links_of(items@)[i as int] == link@);
        if has_prefix(link.as_slice(), prefix.as_slice()) {
            return Ok(remove_all(link.as_slice(), prefix.as_slice()));
        }
        i += 1;
    }
    Err("wikipedia の検索に失敗しました。".to_owned())
}

/// The address that gives the extract of an article.
pub fn wikipedia_api_url(title: &str) -> (url: String)
    ensures
        url@ == extract_url(title@),
{
    let mut url =
        "https://ja.wikipedia.org/w/api.php?format=json&action=query&prop=extracts&exintro&explaintext&redirects=1&titles=".to_owned();
    url.append(title);
    url
}

/// The reply of the encyclopedia command: the search text, the decoded
/// title, and the extract and the title of the first page. The title must have
/// a decoding, and the answer a page.
pub fn wiki_reply(search_text: &str, title: &str, response: &Response) -> (reply: String)
    requires
        percent_decoded(title@) is Some,
        response.query.pages@.len() > 0,
    ensures
        reply@ == wiki_reply_text(
            search_text@,
            percent_decoded(title@)->0,
            response.query.pages@[0].1.extract@,
            response.query.pages@[0].1.title@,
        ),
{
    let decoded = match try_percent_decode(title) {
        Some(decoded) => decoded,
        None => String::new(),
    };
    let page = &response.query.pages[0].1;
    let mut reply = "検索クエリ: ".to_owned();
    reply.append(search_text);
    reply.append("\n検索結果: ");
    reply.append(decoded.as_str());
    reply.append("\n");
    reply.append(page.extract.as_str());
    reply.append("\nhttps://ja.wikipedia.org/wiki/");
    reply.append(page.title.as_str());
    reply
}

/// The lines that tell the chat service its role, one for each prompt.
pub open spec fn prompt_lines(prompts: Seq<Seq<char>>) -> Seq<char>
    decreases prompts.len(),
{
    if prompts.len() == 0 {
        Seq::empty()
    } else {
        prompt_lines(prompts.drop_last()) + "{ \"role\": \"system\", \"content\": \""@
            + prompts.last() + "\" },"@
    }
}

/// The body of a request to the chat service: the model, the prompts, and the
/// content as the message of the user. Nothing in the prompts or the content
/// is escaped.
pub open spec fn chat_body(content: Seq<char>, prompts: Seq<Seq<char>>) -> Seq<char> {
    "{ \"model\": \"gpt-3.5-turbo\", \"messages\": ["@ + prompt_lines(prompts)
        + "{ \"role\": \"user\", \"content\": \""@ + content + "\" }] }"@
}

/// The texts of the prompts.
pub open spec fn prompt_texts(prompts: Seq<String>) -> Seq<Seq<char>> {
    Seq::new(prompts.len(), |i: int| prompts[i]@)
}

/// The body of a request to the chat service.
pub fn chat_request_body(content: &str, prompts: &Vec<String>) -> (body: String)
    ensures
        body@ == chat_body(content@, prompt_texts(prompts@)),
{
    let mut body = "{ \"model\": \"gpt-3.5-turbo\", \"messages\": [".to_owned();
    let ghost start = body@;
    let mut i: usize = 0;
    assert(prompt_texts(prompts@).take(0) =~= Seq::<Seq<char>>::empty());
    assert(start + Seq::<char>::empty() =~= start);
    while i < prompts.len()
        invariant
            i <= prompts@.len(),
            body@ == start + prompt_lines(prompt_texts(prompts@).take(i as int)),
        decreases prompts@.len() - i,
    {
        body.append("{ \"role\": \"system\", \"content\": \"");
        body.append(prompts[i].as_str());
        body.append("\" },");
        proof {
            let now = prompt_texts(prompts@).take(i + 1);
            assert(now.drop_last() =~= prompt_texts(prompts@).take(i as int));
            assert(now.last() == prompts@[i as int]@);
            assert(body@ =~= start + prompt_lines(now));
        }
        i += 1;
    }
    assert(prompt_texts(prompts@).take(i as int) =~= prompt_texts(prompts@));
    body.append("{ \"role\": \"user\", \"content\": \"");
    body.append(content);
    body.append("\" }] }");
    body
}

/// The reply of the image command: the search text and the link of the item.
pub fn image_reply(text: &str, item: &GoogleItem) -> (reply: String)
    ensures
        reply@ == "検索クエリ:"@ + text@ + "\n"@ + item.link@,
{
    let mut reply = "検索クエリ:".to_owned();
    reply.append(text);
    reply.append("\n");
    reply.append(item.link.as_str());
    reply
}

} // verus!
