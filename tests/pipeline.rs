use likes_saver::download::pending_downloads;
use likes_saver::downloader::{
    auth_rejected, likes_url, resolve_media_keys, users_by_ids_url, users_by_usernames_url,
    Downloader,
};
use likes_saver::filename::{compose_filename, decimal_string, get_filename_and_url, sanitize_name};
use likes_saver::model::{Attachments, Includes, Media, Tweet, TweetResp, User};

fn user(id: &str, username: &str, name: &str) -> User {
    User { id: id.to_string(), username: username.to_string(), name: name.to_string() }
}

fn media(key: &str, url: Option<&str>) -> Media {
    Media { media_key: key.to_string(), kind: "photo".to_string(), url: url.map(|u| u.to_string()) }
}

fn post(id: &str, author_id: &str, keys: &[&str]) -> Tweet {
    Tweet {
        text: String::new(),
        created_at: "2022-10-27T05:05:06.000Z".to_string(),
        author_id: author_id.to_string(),
        author: None,
        attachments: Some(Attachments {
            media_keys: keys.iter().map(|k| k.to_string()).collect(),
            medias: None,
        }),
        id: id.to_string(),
    }
}

fn page(posts: Vec<Tweet>, ms: Vec<Media>) -> TweetResp {
    TweetResp { data: Some(posts), includes: Some(Includes { media: ms }) }
}

#[test]
fn concrete_page_yields_expected_candidate() {
    let mut d = Downloader::new("k".to_string());
    d.cache_users(&vec![user("3179724518", "N_ever2_give_up", "ねばえばぎぶあぷ")]);
    let resp = page(
        vec![post("1585497795418820609", "3179724518", &["3_1"])],
        vec![media("3_1", Some("https://pbs.twimg.com/media/FgDQt00acAATk0q.jpg"))],
    );
    let got = d.assemble_likes(&resp);
    assert_eq!(
        got,
        vec![(
            "2022-10-27.ねばえばぎぶあぷ.@N_ever2_give_up.1585497795418820609.0.jpg".to_string(),
            "https://pbs.twimg.com/media/FgDQt00acAATk0q.jpg".to_string()
        )]
    );
}

#[test]
fn sanitization_replaces_slash_and_dot_only() {
    assert_eq!(sanitize_name("a/b.c d"), "a[slash]b[dot]c d");
    assert_eq!(sanitize_name("ねば/え.ば"), "ねば[slash]え[dot]ば");
    assert_eq!(sanitize_name(""), "");
    let f = compose_filename("2022-10-27", "x.y/z", "u", "9", 3, "png");
    assert_eq!(f, "2022-10-27.x[dot]y[slash]z.@u.9.3.png");
}

#[test]
fn decimal_numerals() {
    assert_eq!(decimal_string(0), "0");
    assert_eq!(decimal_string(7), "7");
    assert_eq!(decimal_string(10), "10");
    assert_eq!(decimal_string(1203), "1203");
}

#[test]
fn one_candidate_per_media_in_order() {
    let mut d = Downloader::new("k".to_string());
    d.cache_users(&vec![user("1", "alice", "Alice")]);
    let resp = page(
        vec![post("50", "1", &["a", "b", "c"])],
        vec![
            media("c", Some("https://x/c.png")),
            media("a", Some("https://x/a.jpg")),
            media("b", None),
        ],
    );
    let got = d.assemble_likes(&resp);
    assert_eq!(
        got,
        vec![
            ("2022-10-27.Alice.@alice.50.0.jpg".to_string(), "https://x/a.jpg".to_string()),
            ("2022-10-27.Alice.@alice.50.2.png".to_string(), "https://x/c.png".to_string()),
        ]
    );
}

#[test]
fn filenames_unique_with_shared_date_and_author() {
    let mut d = Downloader::new("k".to_string());
    d.cache_users(&vec![user("1", "bob", "Bob")]);
    let resp = page(
        vec![post("10", "1", &["a", "b"]), post("11", "1", &["a", "b"])],
        vec![media("a", Some("https://x/a.jpg")), media("b", Some("https://x/b.jpg"))],
    );
    let got = d.assemble_likes(&resp);
    assert_eq!(got.len(), 4);
    for i in 0..got.len() {
        for j in 0..got.len() {
            if i != j {
                assert_ne!(got[i].0, got[j].0);
            }
        }
    }
}

#[test]
fn rerun_is_idempotent_and_downloads_nothing() {
    let mut d = Downloader::new("k".to_string());
    let users = vec![user("1", "bob", "Bob")];
    d.cache_users(&users);
    let resp = page(vec![post("10", "1", &["a"])], vec![media("a", Some("https://x/a.jpg"))]);
    let first = d.assemble_likes(&resp);
    d.cache_users(&users);
    let second = d.assemble_likes(&resp);
    assert_eq!(first, second);

    let todo = pending_downloads(&first, &vec![]);
    assert_eq!(todo, first);
    let stored: Vec<String> = todo.iter().map(|c| c.0.clone()).collect();
    assert!(pending_downloads(&second, &stored).is_empty());
}

#[test]
fn pending_skips_present_files() {
    let cands = vec![
        ("a.jpg".to_string(), "u1".to_string()),
        ("b.jpg".to_string(), "u2".to_string()),
        ("c.jpg".to_string(), "u3".to_string()),
    ];
    let got = pending_downloads(&cands, &vec!["b.jpg".to_string()]);
    assert_eq!(got, vec![cands[0].clone(), cands[2].clone()]);
}

#[test]
fn uncached_authors_listed_once() {
    let mut d = Downloader::new("k".to_string());
    d.cache_users(&vec![user("1", "a", "A")]);
    let posts = vec![
        post("10", "2", &[]),
        post("11", "1", &[]),
        post("12", "3", &[]),
        post("13", "2", &[]),
        post("14", "3", &[]),
    ];
    assert_eq!(d.uncached_author_ids(&posts), vec!["2".to_string(), "3".to_string()]);
    let ids = d.uncached_author_ids(&posts);
    assert_eq!(users_by_ids_url(&ids), "https://api.twitter.com/2/users?ids=2,3");
}

#[test]
fn cache_does_not_overwrite() {
    let mut d = Downloader::new("k".to_string());
    d.cache_users(&vec![user("1", "first", "First")]);
    d.cache_users(&vec![user("1", "second", "Second"), user("2", "b", "B")]);
    assert_eq!(d.cached_user(&"1".to_string()).unwrap().username, "first");
    assert_eq!(d.cached_user(&"2".to_string()).unwrap().username, "b");
    assert!(d.cached_user(&"3".to_string()).is_none());
}

#[test]
fn unresolved_author_yields_nothing() {
    let d = Downloader::new("k".to_string());
    let resp = page(vec![post("10", "9", &["a"])], vec![media("a", Some("https://x/a.jpg"))]);
    assert!(d.assemble_likes(&resp).is_empty());
}

#[test]
fn missing_media_key_yields_nothing() {
    let mut d = Downloader::new("k".to_string());
    d.cache_users(&vec![user("1", "bob", "Bob")]);
    let resp = page(
        vec![post("10", "1", &["gone"]), post("11", "1", &["a"])],
        vec![media("a", Some("https://x/a.jpg"))],
    );
    assert_eq!(
        d.assemble_likes(&resp),
        vec![("2022-10-27.Bob.@bob.11.0.jpg".to_string(), "https://x/a.jpg".to_string())]
    );
    assert!(resolve_media_keys(&vec!["gone".to_string()], &vec![media("a", None)]).is_none());
}

#[test]
fn later_media_record_wins() {
    let ms = vec![media("a", Some("https://x/1.jpg")), media("a", Some("https://x/2.jpg"))];
    let got = resolve_media_keys(&vec!["a".to_string()], &ms).unwrap();
    assert_eq!(got[0].url, Some("https://x/2.jpg".to_string()));
}

#[test]
fn url_without_extension_is_rejected() {
    let t = Tweet {
        text: String::new(),
        created_at: "2022-10-27T05:05:06.000Z".to_string(),
        author_id: "1".to_string(),
        author: Some(user("1", "u", "N")),
        attachments: Some(Attachments {
            media_keys: vec![],
            medias: Some(vec![
                media("a", Some("https://x/dir/")),
                media("b", Some("")),
                media("c", Some("https://x/y.gif")),
            ]),
        }),
        id: "5".to_string(),
    };
    assert_eq!(
        get_filename_and_url(&t),
        vec![("2022-10-27.N.@u.5.2.gif".to_string(), "https://x/y.gif".to_string())]
    );
}

#[test]
fn short_timestamp_yields_nothing() {
    let t = Tweet {
        text: String::new(),
        created_at: "2022-10".to_string(),
        author_id: "1".to_string(),
        author: Some(user("1", "u", "N")),
        attachments: Some(Attachments {
            media_keys: vec![],
            medias: Some(vec![media("c", Some("https://x/y.gif"))]),
        }),
        id: "5".to_string(),
    };
    assert!(get_filename_and_url(&t).is_empty());
}

#[test]
fn post_without_author_yields_nothing() {
    let t = post("5", "1", &["a"]);
    assert!(get_filename_and_url(&t).is_empty());
}

#[test]
fn api_urls() {
    assert_eq!(
        likes_url("114514"),
        "https://api.twitter.com/2/users/114514/liked_tweets?expansions=attachments.media_keys&media.fields=url&tweet.fields=created_at,author_id&max_results=50"
    );
    assert_eq!(
        users_by_usernames_url(&vec!["werifu_".to_string(), "b".to_string()]),
        "https://api.twitter.com/2/users/by?usernames=werifu_,b"
    );
    assert_eq!(users_by_ids_url(&vec![]), "https://api.twitter.com/2/users?ids=");
}

#[test]
fn auth_rejection_and_bearer() {
    assert!(auth_rejected(401));
    assert!(!auth_rejected(200));
    assert!(!auth_rejected(403));
    assert_eq!(Downloader::new("abc".to_string()).bearer(), "Bearer abc");
}
