use atra::markup::nesting_of;

#[test]
fn elements_count_while_they_are_open() {
    assert_eq!(nesting_of("plain"), 0);
    assert_eq!(nesting_of("<p>a</p><p>b</p>"), 1);
    assert_eq!(nesting_of("<DIV class='a>b'><b title=\"</b></div>\">x</b ></div><i>y</i>"), 2);
    assert_eq!(nesting_of("<ul><li>a<li>b<li>c</ul><ul><li>d</ul>"), 2);
    assert_eq!(nesting_of("<p>a<p>b<div>c</div><p>d"), 1);
    assert_eq!(nesting_of("<br><img src=a><hr/>a < b"), 0);
}

#[test]
fn what_is_no_markup_does_not_count() {
    assert_eq!(nesting_of("<!-- <div><div> --><p>a</p>"), 1);
    assert_eq!(nesting_of("<!doctype html><?x <b>?><p>a</p>"), 1);
    assert_eq!(nesting_of("<script>if (a<b) {'<div><div>'}</script><p>a</p>"), 1);
    assert_eq!(nesting_of("<style>a<b</style><title>x</title>"), 1);
    assert_eq!(nesting_of("<textarea><a b=\"</textarea><i><i></i></i>"), 2);
}

#[test]
fn drawings_close_their_own_elements() {
    let icon = "<svg viewBox=\"0 0 1 1\"><title>a</title><g><path d=\"M0\"/><circle r=1 /></g></svg>";
    assert_eq!(nesting_of(&icon.repeat(20)), 2);
    assert_eq!(nesting_of("<path/><path/><path/>"), 3);
    assert_eq!(nesting_of("<svg><p></p><path/><path/></svg>"), 3);
}

#[test]
fn an_end_that_is_not_certain_does_not_count() {
    assert_eq!(nesting_of("<div><b></div><div><b></div>"), 4);
    assert_eq!(nesting_of("<div title=\"</div>\"><div title=\"</div>\">"), 2);
    assert_eq!(nesting_of("<div><!--</div>--><div><!--</div>-->"), 2);
}

#[test]
fn ends_that_are_left_out_are_found() {
    let terms = "<dt>a<dd>b".repeat(300);
    assert_eq!(nesting_of(&format!("<dl>{terms}</dl><div></div>")), 2);
    let rows = "<tr><td>a<td>b<tr><th>c".repeat(200);
    assert_eq!(nesting_of(&format!("<table><tbody>{rows}<tbody>{rows}</table><i></i>")), 4);
    let lists = "<ul><li>a<ul><li>b<li>c</ul><li>d</ul><div><p>e</div>".repeat(200);
    assert_eq!(nesting_of(&lists), 4);
    let cells = "<table><tr><td><p>a</td><td>b</td></tr></table>";
    assert_eq!(nesting_of(&cells.repeat(10)), 5);
}

#[test]
fn what_may_have_ended_before_ends_nothing() {
    let nested = "<li><dd>".repeat(20);
    for opening in [
        "<section><div></section>",
        "<button><div><button></button>",
        "<li><div><li></li>",
        "<table><table></table><div></table>",
        "<h3><div><h1><h2></h2></h1>",
        "<template><tbody><div></template>",
        "<select><div><input></select>",
        "<span><dialog></span>",
        "<select><select><div><select>",
        "<table><tr><td><object></td><div></table>",
        "<object><div></object><object></object>",
        "<form><li><form></form></li><div></form>",
    ] {
        let end = match opening {
            "<span><dialog></span>" => "</dialog>",
            "<table><table></table><div></table>" => "</table>",
            _ => "</div>",
        };
        let page = format!("{opening}{nested}{end}").repeat(10);
        assert!(nesting_of(&page) >= 400, "{opening}: {}", nesting_of(&page));
    }
    let hidden = "<template><col><script></template><b><b><b><b></b></b></b></b></script>";
    assert!(nesting_of(hidden) >= 8);
    assert_eq!(nesting_of("<template><script><b><b></script></template><i></i>"), 2);
}

#[test]
fn scripts_are_read_to_their_end() {
    let tags = "<b><b><b></b></b></b>";
    assert_eq!(nesting_of(&format!("<div><script><!--{tags}--></script></div><i></i>")), 2);
    assert_eq!(nesting_of(&format!("<script><!-- a</script>{tags}")), 3);
    assert_eq!(nesting_of(&format!("<script><!--<script>{tags}</script>{tags}--></script><i>")), 1);
    assert_eq!(nesting_of(&format!("<script><!--<script></script>{tags}</script>{tags}")), 3);
    assert_eq!(nesting_of(&format!("<script><!--<script>--></script>{tags}")), 3);
    assert_eq!(nesting_of(&format!("<script><!--<scripts></script>{tags}")), 3);
    assert_eq!(nesting_of(&format!("<script><!-<script></script>{tags}")), 3);
    assert_eq!(nesting_of(&format!("<script><!--></script>{tags}")), 3);
    assert_eq!(nesting_of("<script>a<!b</scrip></script x='>'><i></i>"), 1);
}

#[test]
fn comments_and_attributes_are_read_to_their_end() {
    let tags = "<b><b><b></b></b></b>";
    assert_eq!(nesting_of(&format!("<!--{tags}--!><i></i>")), 1);
    assert_eq!(nesting_of(&format!("<!--!>{tags}--><i></i>")), 1);
    assert_eq!(nesting_of(&format!("<!--a--!b{tags}--!-->{tags}")), 3);
    assert_eq!(nesting_of(&format!("<!--->{tags}-->")), 3);
    assert_eq!(nesting_of(&format!("<!-->{tags}-->")), 3);
    assert_eq!(nesting_of("<![if IE]><i></i><![endif]>".repeat(200).as_str()), 1);
    assert_eq!(nesting_of("<a \"x\" ='b' c=\"d\"e'><b></b></a>".repeat(200).as_str()), 2);
    assert_eq!(nesting_of("<p></p a=\"<b><b>\">".repeat(200).as_str()), 1);
}

#[test]
fn an_end_ends_what_is_open_in_it() {
    let cells = "<table><tr><td><p>a<font>b<td><ul><li>c<p>d<li>e<tr><th>f</table>";
    assert_eq!(nesting_of(&cells.repeat(200)), 7);
    let columns = "<table><caption>a</caption><colgroup><col><col><tbody><tr><td>b</tbody></table>";
    assert_eq!(nesting_of(&columns.repeat(200)), 4);
    let choices = "<form><select><option>a<option>b<optgroup><option>c</select></form>";
    assert_eq!(nesting_of(&choices.repeat(200)), 4);
    let blocks = "<section><div><label>a<h2>b</section>";
    assert_eq!(nesting_of(&blocks.repeat(200)), 4);
    let nested = "<table><tr><td><div><table><tr><td>a<p>b</table></div></table>";
    assert_eq!(nesting_of(&nested.repeat(200)), 10);
    assert_eq!(nesting_of("<table><td>a<table><tr><td>b"), 8);
}
