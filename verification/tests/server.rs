//! The web pages.
use catbot::server::{channel_location, channel_page, guild_page, guilds_page, root_location, template, Guild, GuildChannel};

#[test]
fn template_page() {
    assert_eq!(
        template("t", "b"),
        "\n<!doctype html>\n<html>\n<head>\n<title>t</title>\n</head>\n<body>\nb\n</body>\n"
    );
}

#[test]
fn template_agrees_with_format() {
    let title = "guilds";
    let body = "<h1>Guilds</h1><ul></ul>";
    let expected = format!(
        r#"
<!doctype html>
<html>
<head>
<title>{}</title>
</head>
<body>
{}
</body>
"#,
        title, body
    );
    assert_eq!(template(title, body), expected);
}

#[test]
fn guilds_listed() {
    let guilds = vec![
        Guild { id: 1, name: "One".to_string() },
        Guild { id: 18446744073709551615, name: "Max".to_string() },
    ];
    assert_eq!(
        guilds_page(&guilds),
        template(
            "guilds",
            "<h1>Guilds</h1><ul><li><a href=\"/guilds/1\">One</a></li><li><a href=\"/guilds/18446744073709551615\">Max</a></li></ul>"
        )
    );
}

#[test]
fn only_text_channels_listed() {
    let channels = vec![
        GuildChannel { id: 10, name: "general".to_string(), is_text: true },
        GuildChannel { id: 11, name: "voice".to_string(), is_text: false },
        GuildChannel { id: 0, name: "zero".to_string(), is_text: true },
    ];
    assert_eq!(
        guild_page(&channels),
        template(
            "channels",
            "<h1>Channels</h1><ul><li><a href=\"/channel/10\">general</a></li><li><a href=\"/channel/0\">zero</a></li></ul>"
        )
    );
}

#[test]
fn channel_form() {
    let expected = template(
        "general",
        &format!(
            r#"
<form action="/channel/{}" method="POST">
<textarea name="message"></textarea>
<br />
<input type="submit" value="send">
</form>
"#,
            42
        ),
    );
    assert_eq!(channel_page(42, "general"), expected);
    assert_eq!(channel_location(42), "/channel/42");
    assert_eq!(root_location(), "/guilds");
}
