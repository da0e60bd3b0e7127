use munje::error::Error;
use munje::page::Page;

fn parse(body: &str) -> Result<Page, Error> {
    Page::parse(body.to_string(), "https://parent/link".to_string())
}

#[test]
fn absolute_meta_image() -> Result<(), Error> {
    let page = Page::parse(
        r#"
        <head>
            <meta
                property="og:image"
                content="https://cdn.sstatic.net/Sites/stackoverflow/Img/apple-touch-icon@2.png"
            />
        </head>
        "#
        .to_string(),
        "https://stackoverflow.com/questions/66272984/parent-page".to_string(),
    )?;
    assert_eq!(
        "https://cdn.sstatic.net/Sites/stackoverflow/Img/apple-touch-icon@2.png".to_string(),
        page.meta_image().unwrap(),
    );
    Ok(())
}

#[test]
fn leetcode_meta_image() -> Result<(), Error> {
    let page = Page::parse(
        r#"
        <head>
            <meta property="og:image" content="/static/images/LeetCode_Sharing.png" />
        </head>
        "#
        .to_string(),
        "https://leetcode.com/problems/some-problem".to_string(),
    )?;
    assert_eq!(
        "https://assets.leetcode.com/static_assets/public/icons/favicon-96x96.png".to_string(),
        page.meta_image().unwrap(),
    );
    Ok(())
}

#[test]
fn reddit_meta_image() -> Result<(), Error> {
    let page = Page::parse(
        r#"<head></head>"#.to_string(),
        "https://www.reddit.com/r/AskHistorians/comments/qdzeai".to_string(),
    )?;
    assert_eq!(
        "https://www.redditstatic.com/desktop2x/img/favicon/favicon-96x96.png".to_string(),
        page.meta_image().unwrap(),
    );
    Ok(())
}

#[test]
fn no_meta_image_content() -> Result<(), Error> {
    let page = parse(r#"<head><meta property="og:image" contents="image-link">"#)?;
    assert_eq!(None, page.meta_image());
    Ok(())
}

#[test]
fn no_meta_image_element() -> Result<(), Error> {
    let page = parse(r#"<head><meta property="og:images" content="image-link" /></head>"#)?;
    assert_eq!(None, page.meta_image());
    Ok(())
}

#[test]
fn title() -> Result<(), Error> {
    let page = parse(r#"<head><title>page-title</title></head>"#)?;
    assert_eq!(Some("page-title".to_string()), page.title());
    Ok(())
}

#[test]
fn no_title() -> Result<(), Error> {
    let page = parse(r#"<head></head>"#)?;
    assert_eq!(None, page.title());
    Ok(())
}

#[test]
fn relative_meta_image_resolves_against_parent_host() -> Result<(), Error> {
    let page = Page::parse(
        r#"<head><meta property="og:image" content="/img/logo.png" /></head>"#.to_string(),
        "https://example.com/post/1".to_string(),
    )?;
    assert_eq!(
        Some("https://example.com/img/logo.png".to_string()),
        page.meta_image(),
    );
    Ok(())
}

#[test]
fn unparsable_link_is_rejected() {
    assert!(Page::parse("<head></head>".to_string(), "not a url".to_string()).is_err());
}
