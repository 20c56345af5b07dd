//! What a quest looks like as HTML: the text of every symbol, container and
//! block, and what holds of them.

use crate::grammar::{LineView, OptionView, StageView};
use vstd::prelude::*;

verus! {

/// The glyph of a known tag, as an HTML character reference. A custom tag has
/// none.
pub open spec fn glyph(option: OptionView) -> Option<Seq<char>> {
    match option {
        OptionView::Event => Some("&#x2139;&#xFE0F"@),
        OptionView::Boss => Some("&#x1F3C1"@),
        OptionView::Miniboss => Some("&#x1F47E"@),
        OptionView::Other(_) => None,
    }
}

/// The symbol of a tag: the glyph of a known tag in a `span`, the label of a
/// custom tag, as it was written, in an `em`.
pub open spec fn symbol(option: OptionView) -> Seq<char> {
    match option {
        OptionView::Other(label) => "<em class=\"quest-other\">"@ + label + "</em>"@,
        _ => "<span class=\"quest-image\">"@ + glyph(option)->0 + "</span>"@,
    }
}

/// The symbols of a tag list, one per tag, in the order of the tags.
pub open spec fn symbols(options: Seq<OptionView>) -> Seq<Seq<char>> {
    Seq::new(options.len(), |i: int| symbol(options[i]))
}

/// The texts `parts` in their order, with `separator` between each two
/// neighbours.
pub open spec fn join(parts: Seq<Seq<char>>, separator: Seq<char>) -> Seq<char>
    decreases parts.len(),
{
    if parts.len() == 0 {
        Seq::empty()
    } else if parts.len() == 1 {
        parts[0]
    } else {
        join(parts.drop_last(), separator) + separator + parts.last()
    }
}

/// The tags of a stage as HTML: nothing for an empty list, else one container
/// around the symbols, which are separated by non-breaking spaces.
pub open spec fn options_html(options: Seq<OptionView>) -> Seq<char> {
    if options.len() == 0 {
        Seq::empty()
    } else {
        "<div class=\"quest-options\">"@ + join(symbols(options), "&nbsp;"@) + "</div>"@
    }
}

/// A tag that makes its stage important: boss or miniboss.
pub open spec fn is_boss_tag(option: OptionView) -> bool {
    option is Boss || option is Miniboss
}

/// A tag list is important if it holds a boss or a miniboss tag.
pub open spec fn is_important(options: Seq<OptionView>) -> bool {
    exists|i: int| 0 <= i < options.len() && is_boss_tag(#[trigger] options[i])
}

/// What the class of a block carries where the block stands at the first
/// marker or after it.
pub open spec fn future_qualifier(is_future: bool) -> Seq<char> {
    if is_future {
        " future"@
    } else {
        Seq::empty()
    }
}

/// The class of a stage block.
pub open spec fn stage_class(is_future: bool) -> Seq<char> {
    "stage"@ + future_qualifier(is_future)
}

/// The class of a marker block. No marker stands before the first one, so
/// every marker block carries the qualifier.
pub open spec fn marker_class() -> Seq<char> {
    "stage-now"@ + future_qualifier(true)
}

/// Whether a class carries the qualifier of what lies ahead.
pub open spec fn carries_future(class: Seq<char>) -> bool {
    " future"@.is_suffix_of(class)
}

/// The opening of a block with the class `class`.
pub open spec fn block_open(class: Seq<char>) -> Seq<char> {
    "\n<div class=\""@ + class + "\">"@
}

/// The class of the action of a stage.
pub open spec fn action_class(important: bool) -> Seq<char> {
    if important {
        "quest-action quest-important"@
    } else {
        "quest-action"@
    }
}

/// The block of a stage.
pub open spec fn stage_html(stage: StageView, is_future: bool) -> Seq<char> {
    block_open(stage_class(is_future)) + "\n    "@ + options_html(stage.options)
        + "\n    <span class=\""@ + action_class(is_important(stage.options)) + "\">"@
        + stage.action + "</span>\n</div>"@
}

/// The block of a marker.
pub open spec fn here_html() -> Seq<char> {
    block_open(marker_class()) + "\n    YOU ARE HERE\n</div>"@
}

/// Whether a marker stands at line `i` or before it.
pub open spec fn past_marker(lines: Seq<LineView>, i: int) -> bool {
    exists|j: int| 0 <= j <= i && j < lines.len() && #[trigger] lines[j] is Now
}

/// The class of the block of line `i` of a quest.
pub open spec fn block_class(lines: Seq<LineView>, i: int) -> Seq<char> {
    match lines[i] {
        LineView::Now => marker_class(),
        LineView::Stage(_) => stage_class(past_marker(lines, i)),
    }
}

/// The block of line `i` of a quest.
pub open spec fn block(lines: Seq<LineView>, i: int) -> Seq<char> {
    match lines[i] {
        LineView::Now => here_html(),
        LineView::Stage(stage) => stage_html(stage, past_marker(lines, i)),
    }
}

/// The blocks of a quest, one per line, in the order of the lines.
pub open spec fn blocks(lines: Seq<LineView>) -> Seq<Seq<char>> {
    Seq::new(lines.len(), |i: int| block(lines, i))
}

/// A quest as HTML: its blocks, joined by line feeds.
pub open spec fn render(lines: Seq<LineView>) -> Seq<char> {
    join(blocks(lines), "\n"@)
}

/// Where part `i` starts in the joined text.
pub open spec fn part_start(parts: Seq<Seq<char>>, separator: Seq<char>, i: int) -> int {
    if i <= 0 {
        0
    } else {
        (join(parts.take(i), separator).len() + separator.len()) as int
    }
}

/// Where part `i` ends in the joined text.
pub open spec fn part_end(parts: Seq<Seq<char>>, separator: Seq<char>, i: int) -> int {
    part_start(parts, separator, i) + parts[i].len()
}

/// Joining the first `k` parts gives the start of the whole joined text.
pub proof fn lemma_join_take(parts: Seq<Seq<char>>, separator: Seq<char>, k: int)
    requires
        0 <= k <= parts.len(),
    ensures
        join(parts.take(k), separator).is_prefix_of(join(parts, separator)),
    decreases parts.len(),
{
    if k == parts.len() {
        assert(parts.take(k) == parts);
    } else if parts.len() >= 2 {
        let front = parts.drop_last();
        lemma_join_take(front, separator, k);
        assert(front.take(k) == parts.take(k));
    } else {
        assert(parts.take(k).len() == 0);
    }
}

/// Part `i` stands in the joined text between its start and its end, and the
/// first `i + 1` parts joined end where it ends.
pub proof fn lemma_part_in_join(parts: Seq<Seq<char>>, separator: Seq<char>, i: int)
    requires
        0 <= i < parts.len(),
    ensures
        0 <= part_start(parts, separator, i) <= part_end(parts, separator, i) <= join(
            parts,
            separator,
        ).len(),
        join(parts, separator).subrange(
            part_start(parts, separator, i),
            part_end(parts, separator, i),
        ) == parts[i],
        join(parts.take(i + 1), separator).len() == part_end(parts, separator, i),
{
    let upto = parts.take(i + 1);
    let start = part_start(parts, separator, i);
    let end = part_end(parts, separator, i);
    lemma_join_take(parts, separator, i + 1);
    assert(upto.drop_last() == parts.take(i));
    assert(upto.last() == parts[i]);
    assert(join(upto, separator).subrange(start, end) == parts[i]);
    assert(join(parts, separator).subrange(0, join(upto, separator).len() as int).subrange(
        start,
        end,
    ) == join(parts, separator).subrange(start, end));
}

/// Joining puts the parts one after another: every part stands in the joined
/// text between its start and its end, and a later part starts after the end
/// of an earlier one and a separator.
pub proof fn lemma_join_in_order(parts: Seq<Seq<char>>, separator: Seq<char>)
    ensures
        forall|i: int|
            0 <= i < parts.len() ==> join(parts, separator).subrange(
                part_start(parts, separator, i),
                #[trigger] part_end(parts, separator, i),
            ) == parts[i],
        forall|i: int, j: int|
            0 <= i < j < parts.len() ==> #[trigger] part_end(parts, separator, i)
                + separator.len() <= #[trigger] part_start(parts, separator, j),
{
    assert forall|i: int| 0 <= i < parts.len() implies join(parts, separator).subrange(
        part_start(parts, separator, i),
        #[trigger] part_end(parts, separator, i),
    ) == parts[i] by {
        lemma_part_in_join(parts, separator, i);
    }
    assert forall|i: int, j: int| 0 <= i < j < parts.len() implies #[trigger] part_end(
        parts,
        separator,
        i,
    ) + separator.len() <= #[trigger] part_start(parts, separator, j) by {
        lemma_part_in_join(parts, separator, i);
        let upto = parts.take(j);
        lemma_join_take(upto, separator, i + 1);
        assert(upto.take(i + 1) == parts.take(i + 1));
    }
}

/// The number of known tags in a tag list.
pub open spec fn count_known(options: Seq<OptionView>) -> nat
    decreases options.len(),
{
    if options.len() == 0 {
        0
    } else if options.last() is Other {
        count_known(options.drop_last())
    } else {
        count_known(options.drop_last()) + 1
    }
}

/// The number of custom tags in a tag list.
pub open spec fn count_other(options: Seq<OptionView>) -> nat
    decreases options.len(),
{
    if options.len() == 0 {
        0
    } else if options.last() is Other {
        count_other(options.drop_last()) + 1
    } else {
        count_other(options.drop_last())
    }
}

/// Where the symbol of tag `i` starts in the container of a tag list.
pub open spec fn symbol_start(options: Seq<OptionView>, i: int) -> int {
    "<div class=\"quest-options\">"@.len() + part_start(symbols(options), "&nbsp;"@, i)
}

/// Where the symbol of tag `i` ends in the container of a tag list.
pub open spec fn symbol_end(options: Seq<OptionView>, i: int) -> int {
    symbol_start(options, i) + symbol(options[i]).len()
}

/// A tag list has as many symbols as it has known and custom tags together.
pub proof fn lemma_symbol_count(options: Seq<OptionView>)
    ensures
        symbols(options).len() == count_known(options) + count_other(options),
    decreases options.len(),
{
    if options.len() > 0 {
        lemma_symbol_count(options.drop_last());
    }
}

/// Every tag of a list, known or custom, has its symbol in the container, and
/// the symbols stand there in the order of the tags, each after the end of
/// the one before.
pub proof fn lemma_symbols_in_order(options: Seq<OptionView>)
    ensures
        symbols(options).len() == count_known(options) + count_other(options),
        forall|i: int|
            0 <= i < options.len() ==> options_html(options).subrange(
                symbol_start(options, i),
                #[trigger] symbol_end(options, i),
            ) == symbol(options[i]),
        forall|i: int, j: int|
            0 <= i < j < options.len() ==> #[trigger] symbol_end(options, i) < #[trigger] symbol_start(
                options,
                j,
            ),
{
    lemma_symbol_count(options);
    let parts = symbols(options);
    let separator = "&nbsp;"@;
    let open = "<div class=\"quest-options\">"@;
    lemma_join_in_order(parts, separator);
    assert forall|i: int| 0 <= i < options.len() implies options_html(options).subrange(
        symbol_start(options, i),
        #[trigger] symbol_end(options, i),
    ) == symbol(options[i]) by {
        let start = part_start(parts, separator, i);
        let end = part_end(parts, separator, i);
        lemma_part_in_join(parts, separator, i);
        assert(options_html(options).subrange(open.len() + start, open.len() + end) == join(
            parts,
            separator,
        ).subrange(start, end));
    }
    assert forall|i: int, j: int| 0 <= i < j < options.len() implies #[trigger] symbol_end(
        options,
        i,
    ) < #[trigger] symbol_start(options, j) by {
        reveal_strlit("&nbsp;");
        assert(part_end(parts, separator, i) + separator.len() <= part_start(parts, separator, j));
    }
}

/// A stage without tags has no tag container: between the opening of its
/// block and its action there is nothing but the line break and indentation.
/// A stage with tags has one, which opens and closes as a `div`.
pub proof fn lemma_container_only_with_tags(stage: StageView, is_future: bool)
    ensures
        stage.options.len() == 0 ==> options_html(stage.options) == Seq::<char>::empty(),
        stage.options.len() == 0 ==> stage_html(stage, is_future) == block_open(
            stage_class(is_future),
        ) + "\n    "@ + "\n    <span class=\""@ + "quest-action"@ + "\">"@ + stage.action
            + "</span>\n</div>"@,
        stage.options.len() > 0 ==> "<div class=\"quest-options\">"@.is_prefix_of(
            options_html(stage.options),
        ) && "</div>"@.is_suffix_of(options_html(stage.options)),
        stage.options.len() > 0 ==> options_html(stage.options).len() > 0,
{
    if stage.options.len() == 0 {
        assert(!is_important(stage.options));
        assert(block_open(stage_class(is_future)) + "\n    "@ + Seq::<char>::empty()
            == block_open(stage_class(is_future)) + "\n    "@);
    } else {
        let open = "<div class=\"quest-options\">"@;
        let close = "</div>"@;
        let html = options_html(stage.options);
        reveal_strlit("</div>");
        assert(html.subrange(0, open.len() as int) == open);
        assert(html.subrange(html.len() - close.len(), html.len() as int) == close);
    }
}

/// A stage is important exactly if one of its tags is a boss or a miniboss
/// tag. Stages whose tags are all event or custom tags are never important.
pub proof fn lemma_important_iff_boss(options: Seq<OptionView>)
    ensures
        is_important(options) <==> exists|i: int|
            0 <= i < options.len() && (#[trigger] options[i] is Boss || options[i] is Miniboss),
        (forall|i: int| 0 <= i < options.len() ==> #[trigger] options[i] is Event || options[i] is Other)
            ==> !is_important(options),
{
    if is_important(options) {
        let i = choose|i: int| 0 <= i < options.len() && is_boss_tag(#[trigger] options[i]);
        assert(options[i] is Boss || options[i] is Miniboss);
    }
    if exists|i: int|
        0 <= i < options.len() && (#[trigger] options[i] is Boss || options[i] is Miniboss) {
        let i = choose|i: int|
            0 <= i < options.len() && (#[trigger] options[i] is Boss || options[i] is Miniboss);
        assert(is_boss_tag(options[i]));
    }
}

/// Whatever follows it, a block starts with its opening, class included.
pub proof fn lemma_block_starts(lines: Seq<LineView>, i: int)
    requires
        0 <= i < lines.len(),
    ensures
        block_open(block_class(lines, i)).is_prefix_of(blocks(lines)[i]),
{
    let open = block_open(block_class(lines, i));
    assert(blocks(lines)[i].subrange(0, open.len() as int) == open);
}

/// The classes of stages and markers: which of them carry the qualifier.
pub proof fn lemma_classes()
    ensures
        carries_future(stage_class(true)),
        !carries_future(stage_class(false)),
        carries_future(marker_class()),
        stage_class(true) == "stage future"@,
        stage_class(false) == "stage"@,
        marker_class() == "stage-now future"@,
{
    reveal_strlit("stage");
    reveal_strlit("stage-now");
    reveal_strlit(" future");
    reveal_strlit("stage future");
    reveal_strlit("stage-now future");
    assert(stage_class(true).subrange(5, 12) == " future"@);
    assert(marker_class().subrange(9, 16) == " future"@);
    assert(stage_class(true) == "stage future"@);
    assert(stage_class(false) == "stage"@);
    assert(marker_class() == "stage-now future"@);
}

/// The block of a stage is never the block of a marker, and the block of a
/// stage that lies ahead is never that of one that does not.
pub proof fn lemma_blocks_differ(stage: StageView, other: StageView)
    ensures
        stage_html(stage, true) != here_html(),
        stage_html(stage, false) != here_html(),
        stage_html(stage, true) != stage_html(other, false),
{
    lemma_classes();
    reveal_strlit("\n<div class=\"");
    reveal_strlit("stage future");
    reveal_strlit("stage");
    reveal_strlit("stage-now future");
    reveal_strlit("\">");
    let ahead = block_open(stage_class(true));
    let behind = block_open(stage_class(false));
    let here = block_open(marker_class());
    assert(ahead[18] == ' ');
    assert(behind[18] == '"');
    assert(here[18] == '-');
    assert(stage_html(stage, true).subrange(0, ahead.len() as int) == ahead);
    assert(stage_html(stage, false).subrange(0, behind.len() as int) == behind);
    assert(stage_html(other, false).subrange(0, behind.len() as int) == behind);
    assert(here_html().subrange(0, here.len() as int) == here);
    assert(stage_html(stage, true)[18] == ahead[18]);
    assert(stage_html(stage, false)[18] == behind[18]);
    assert(stage_html(other, false)[18] == behind[18]);
    assert(here_html()[18] == here[18]);
}

/// There is one block per line, and the marker block stands exactly where
/// the lines have a marker: one per marker, none elsewhere.
pub proof fn lemma_here_block_per_marker(lines: Seq<LineView>)
    ensures
        blocks(lines).len() == lines.len(),
        forall|i: int|
            0 <= i < lines.len() ==> (#[trigger] blocks(lines)[i] == here_html() <==> lines[i] is Now),
{
    assert forall|i: int| 0 <= i < lines.len() implies (#[trigger] blocks(lines)[i] == here_html()
        <==> lines[i] is Now) by {
        if let LineView::Stage(stage) = lines[i] {
            lemma_blocks_differ(stage, stage);
        }
    }
}

/// The number of markers among the lines.
pub open spec fn count_markers(lines: Seq<LineView>) -> nat
    decreases lines.len(),
{
    if lines.len() == 0 {
        0
    } else if lines.last() is Now {
        count_markers(lines.drop_last()) + 1
    } else {
        count_markers(lines.drop_last())
    }
}

/// The number of marker blocks among the blocks.
pub open spec fn count_marker_blocks(parts: Seq<Seq<char>>) -> nat
    decreases parts.len(),
{
    if parts.len() == 0 {
        0
    } else if parts.last() == here_html() {
        count_marker_blocks(parts.drop_last()) + 1
    } else {
        count_marker_blocks(parts.drop_last())
    }
}

/// Among the first `k` blocks there are as many marker blocks as there are
/// markers among the first `k` lines.
proof fn lemma_marker_blocks_upto(lines: Seq<LineView>, k: int)
    requires
        0 <= k <= lines.len(),
    ensures
        count_marker_blocks(blocks(lines).take(k)) == count_markers(lines.take(k)),
    decreases k,
{
    if k > 0 {
        lemma_marker_blocks_upto(lines, k - 1);
        lemma_here_block_per_marker(lines);
        assert(blocks(lines).take(k).drop_last() == blocks(lines).take(k - 1));
        assert(lines.take(k).drop_last() == lines.take(k - 1));
        assert(blocks(lines).take(k).last() == blocks(lines)[k - 1]);
        assert(lines.take(k).last() == lines[k - 1]);
    }
}

/// A quest is rendered with exactly as many marker blocks as it has markers.
pub proof fn lemma_marker_block_count(lines: Seq<LineView>)
    ensures
        count_marker_blocks(blocks(lines)) == count_markers(lines),
{
    lemma_marker_blocks_upto(lines, lines.len() as int);
    assert(blocks(lines).take(lines.len() as int) == blocks(lines));
    assert(lines.take(lines.len() as int) == lines);
}

/// Where line `m` is the first marker, the blocks before it do not carry the
/// qualifier of what lies ahead, and every block from it on does, the block
/// of that marker and of any later marker included.
pub proof fn lemma_future_from_first_marker(lines: Seq<LineView>, m: int)
    requires
        0 <= m < lines.len(),
        lines[m] is Now,
        forall|j: int| 0 <= j < m ==> !(#[trigger] lines[j] is Now),
    ensures
        forall|i: int|
            0 <= i < lines.len() ==> (carries_future(#[trigger] block_class(lines, i)) <==> m
                <= i),
        forall|i: int|
            0 <= i < lines.len() ==> block_open(block_class(lines, i)).is_prefix_of(
                #[trigger] blocks(lines)[i],
            ),
        forall|i: int|
            0 <= i < lines.len() ==> (#[trigger] lines[i] matches LineView::Stage(stage)
                ==> blocks(lines)[i] == stage_html(stage, i > m)),
        forall|i: int| 0 <= i < lines.len() ==> (past_marker(lines, i) <==> m <= i),
{
    lemma_classes();
    assert forall|i: int| 0 <= i < lines.len() implies (past_marker(lines, i) <==> m <= i) by {
        if m <= i {
            assert(lines[m] is Now);
        }
    }
    assert forall|i: int| 0 <= i < lines.len() implies block_open(
        block_class(lines, i),
    ).is_prefix_of(#[trigger] blocks(lines)[i]) by {
        lemma_block_starts(lines, i);
    }
}

/// Without a marker no block carries the qualifier of what lies ahead.
pub proof fn lemma_no_future_without_marker(lines: Seq<LineView>)
    requires
        forall|j: int| 0 <= j < lines.len() ==> !(#[trigger] lines[j] is Now),
    ensures
        forall|i: int| 0 <= i < lines.len() ==> !carries_future(#[trigger] block_class(lines, i)),
        forall|i: int|
            0 <= i < lines.len() ==> (#[trigger] lines[i] matches LineView::Stage(stage)
                ==> blocks(lines)[i] == stage_html(stage, false)),
{
    lemma_classes();
}

} // verus!
