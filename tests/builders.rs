use likes_saver::filename::get_filename_and_url;
use likes_saver::model::{Attachments, Media, Tweet, User};
use likes_saver::url::UrlBuilder;

#[test]
fn url_test() {
    let url = UrlBuilder::new("https://localhost/api")
        .param("k", "v")
        .param("k2.1", "1,2,3")
        .get_url();
    assert_eq!("https://localhost/api?k=v&k2.1=1,2,3", url);

    let url2 = UrlBuilder::new("https://api.twitter.com/2/users/114514/liked_tweets")
        .param("expansions", "attachments.media_keys")
        .param("media.fields", "url")
        .param("tweet.fields", "created_at,author_id")
        .param("max_results", "60")
        .get_url();
    assert_eq!("https://api.twitter.com/2/users/114514/liked_tweets?expansions=attachments.media_keys&media.fields=url&tweet.fields=created_at,author_id&max_results=60", url2);
}

#[test]
fn regexp_capture_jpg_test() {
    let re = regex::Regex::new(r"[a-zA-Z0-9]+$").unwrap();
    assert!(re.is_match("xx.jpg"));
    assert!(re.is_match("sxx.jpg"));
    let capted = re
        .captures("https://pbs.twimg.com/media/FgFM_DSVsAAfp37.jpg")
        .unwrap();
    assert_eq!(&capted[0], "jpg");
}

#[test]
fn get_filename_and_url_test() {
    let tweet = Tweet {
        text: "#樋口円香生誕祭2022 \n#樋口円香誕生祭2022 https://t.co/yUmWDJwGK1".to_string(),
        created_at: "2022-10-27T05:05:06.000Z".to_string(),
        author_id: "3179724518".to_string(),
        author: Some(User {
            id: "3179724518".to_string(),
            username: "N_ever2_give_up".to_string(),
            name: "ねばえばぎぶあぷ".to_string(),
        }),
        attachments: Some(Attachments {
            media_keys: vec!["3_1585496554525585408".to_string()],
            medias: Some(vec![Media {
                media_key: "3_1585496554525585408".to_string(),
                kind: "photo".to_string(),
                url: Some("https://pbs.twimg.com/media/FgDQt00acAATk0q.jpg".to_string()),
            }]),
        }),
        id: "1585497795418820609".to_string(),
    };
    let parsed = get_filename_and_url(&tweet);
    assert_eq!(
        parsed[0],
        (
            "2022-10-27.ねばえばぎぶあぷ.@N_ever2_give_up.1585497795418820609.0.jpg".to_string(),
            "https://pbs.twimg.com/media/FgDQt00acAATk0q.jpg".to_string()
        )
    );
}
