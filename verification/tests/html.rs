use glidewin::html::strip_html_tags;

#[test]
fn tags_become_blanks() {
    assert_eq!(strip_html_tags("<p>Hello<br>world</p>"), "Hello world");
    assert_eq!(strip_html_tags("a<b>c</b>d"), "a c d");
}

#[test]
fn scripts_and_styles_are_dropped() {
    assert_eq!(
        strip_html_tags("a<script src='x'>var y = 1;</script>b<STYLE>p { }</STYLE>c"),
        "a b c"
    );
    assert_eq!(strip_html_tags("a< script >x</ script>y"), "a");
    assert_eq!(strip_html_tags("a<script>x<i>y</i></script>z"), "a z");
}

#[test]
fn a_tag_that_only_begins_like_script_hides_too() {
    assert_eq!(strip_html_tags("a<scripted>b</scripted>c"), "a c");
    assert_eq!(strip_html_tags("a<styled>b<p>c"), "a");
}

#[test]
fn a_style_closes_what_a_script_opened() {
    assert_eq!(strip_html_tags("<script>a</style>b"), "b");
}

#[test]
fn entities_are_decoded_one_after_the_other() {
    assert_eq!(
        strip_html_tags("x &amp; y &lt;z&gt; &quot;q&quot; it&#39;s&nbsp;ok"),
        "x & y <z> \"q\" it's ok"
    );
    assert_eq!(strip_html_tags("&amp;lt;"), "<");
    assert_eq!(strip_html_tags("&amp;amp;"), "&amp;");
    assert_eq!(strip_html_tags("&copy; &AMP;"), "&copy; &AMP;");
}

#[test]
fn open_tags_swallow_the_rest() {
    assert_eq!(strip_html_tags("a <b c d"), "a");
    assert_eq!(strip_html_tags("1 < 2 > 3"), "1 3");
}

#[test]
fn white_space_is_collapsed() {
    assert_eq!(strip_html_tags("  a \n\t b\u{a0}c  "), "a b c");
    assert_eq!(strip_html_tags(""), "");
    assert_eq!(strip_html_tags("   "), "");
}

#[test]
fn page_text_is_tidy() {
    let text = strip_html_tags("<div>\n <p> one </p>\n\n<p>two&nbsp;&nbsp;three </p></div> ");
    assert_eq!(text, "one two three");
    assert_eq!(text, text.trim());
    assert!(!text.contains("  "));
}

#[test]
fn plain_text_passes_through() {
    assert_eq!(strip_html_tags("no  markup > here"), "no markup > here");
}

#[test]
fn page_text_is_settled_without_brackets() {
    let text = strip_html_tags("<h1>Title</h1> some &quot;text&quot;");
    assert_eq!(strip_html_tags(&text), text);
    let unsettled = strip_html_tags("&lt;b&gt;x");
    assert_eq!(unsettled, "<b>x");
    assert_eq!(strip_html_tags(&unsettled), "x");
}

#[test]
fn other_alphabets_are_kept() {
    assert_eq!(strip_html_tags("<p>día 漢字 😀</p>"), "día 漢字 😀");
}

#[test]
fn hidden_text_leaves_no_trace() {
    assert_eq!(strip_html_tags("a<script>if (1<2) x > y; <p>z</p></script>b"), "a b");
    assert_eq!(strip_html_tags("a<script>if (1 < 2) { y(); }</script>b"), "a");
}

#[test]
fn tags_and_scripts_read_as_blanks() {
    for (html, plain) in [
        ("<p>a<br>b", "<p>a b"),
        ("<i>a</i><script>x</script>b &amp; c", "<i>a</i> b &amp; c"),
        ("a<b></b>c", "a  c"),
    ] {
        assert_eq!(strip_html_tags(html), strip_html_tags(plain));
    }
}

#[test]
fn pages_are_read_from_left_to_right() {
    assert_eq!(strip_html_tags("<p>a</p>"), "a");
    assert_eq!(strip_html_tags("b <i>c</i>"), "b c");
    assert_eq!(strip_html_tags("<p>a</p>b <i>c</i>"), "a b c");
}

#[test]
fn an_open_tag_swallows_the_rest() {
    assert_eq!(strip_html_tags("<p>a</p> b <img src=x c d"), strip_html_tags("<p>a</p> b "));
}
