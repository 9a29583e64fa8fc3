//! What the command line shows of an index and of its entries.
use crate::entry::{EntryModel, LogEntry};
use crate::indexer::Stats;
use crate::json;
use crate::store;
use crate::text;
use crate::text::{decimal_text, fold, same_text};
use vstd::prelude::*;
use vstd::string::*;

verus! {

/// The numeral of a number below a thousand with all of its three digits.
pub open spec fn three_digits(n: nat) -> Seq<char> {
    seq![text::digit_char(n / 100), text::digit_char(n / 10 % 10), text::digit_char(n % 10)]
}

/// The numeral of a number with a comma between groups of three digits.
pub open spec fn grouped(n: nat) -> Seq<char>
    decreases n,
{
    if n < 1000 {
        text::decimal(n)
    } else {
        grouped(n / 1000) + ","@ + three_digits(n % 1000)
    }
}

/// The megabytes in so many bytes, to the nearest tenth.
pub open spec fn megabytes(bytes: nat) -> Seq<char> {
    let tenths = (bytes + 50_000) / 100_000;
    text::decimal(tenths / 10) + "."@ + text::decimal(tenths % 10)
}

/// The tags that are not absent, with a comma after each.
pub open spec fn named_tags(tags: Seq<Option<Seq<char>>>) -> Seq<char>
    decreases tags.len(),
{
    if tags.len() == 0 {
        seq![]
    } else {
        named_tags(tags.drop_last()) + match tags.last() {
            Some(tag) => tag + ", "@,
            None => seq![],
        }
    }
}

/// The tags in a line: those that are named in their order, and untagged last.
pub open spec fn tag_line(tags: Seq<Option<Seq<char>>>) -> Seq<char> {
    if tags.contains(None) {
        named_tags(tags) + "(untagged)"@
    } else if named_tags(tags).len() >= 2 {
        named_tags(tags).take(named_tags(tags).len() - 2)
    } else {
        "(none)"@
    }
}

/// The first and the last timestamp, if there are any.
pub open spec fn time_range(earliest: Option<Seq<char>>, latest: Option<Seq<char>>) -> Seq<char> {
    match (earliest, latest) {
        (Some(a), Some(b)) => a + " → "@ + b,
        _ => "(none)"@,
    }
}

/// What is shown of an index at `path` whose file has so many bytes.
pub open spec fn index_report(path: Seq<char>, stats: Stats, bytes: nat) -> Seq<char> {
    "logdive index: "@ + path + "\n  Entries:       "@ + grouped(stats.entries as nat)
        + "\n  Time range:    "@ + time_range(
        json::text_view(stats.min_timestamp),
        json::text_view(stats.max_timestamp),
    ) + "\n  Tags:          "@ + tag_line(store::text_views(stats.tags@)) + "\n  DB size:       "@
        + megabytes(bytes) + " MB ("@ + grouped(bytes) + " bytes)\n"@
}

/// A text without its commas.
pub open spec fn without_commas(s: Seq<char>) -> Seq<char>
    decreases s.len(),
{
    if s.len() == 0 {
        s
    } else if s.last() == ',' {
        without_commas(s.drop_last())
    } else {
        without_commas(s.drop_last()).push(s.last())
    }
}

proof fn without_commas_adds_up(a: Seq<char>, b: Seq<char>)
    ensures
        without_commas(a + b) == without_commas(a) + without_commas(b),
    decreases b.len(),
{
    if b.len() == 0 {
        assert(a + b == a);
        assert(without_commas(a) + without_commas(b) == without_commas(a));
    } else {
        without_commas_adds_up(a, b.drop_last());
        assert((a + b).drop_last() == a + b.drop_last());
        let front = without_commas(b.drop_last());
        assert((without_commas(a) + front).push(b.last()) == without_commas(a) + front.push(
            b.last(),
        ));
    }
}

proof fn digits_have_no_commas(s: Seq<char>)
    requires
        text::all_digits(s),
    ensures
        without_commas(s) == s,
    decreases s.len(),
{
    if s.len() > 0 {
        assert(text::digit(s[s.len() - 1]));
        assert forall|i: int| 0 <= i < s.drop_last().len() implies text::digit(
            #[trigger] s.drop_last()[i],
        ) by {
            assert(s.drop_last()[i] == s[i]);
        }
        digits_have_no_commas(s.drop_last());
        assert(s.drop_last().push(s.last()) == s);
    }
}

proof fn last_three_digits(n: nat)
    requires
        n >= 1000,
    ensures
        text::decimal(n) == text::decimal(n / 1000) + three_digits(n % 1000),
{
    assert(n / 10 / 10 / 10 == n / 1000);
    assert(n % 1000 / 100 == n / 10 / 10 % 10 && n % 1000 / 10 % 10 == n / 10 % 10 && n % 1000 % 10
        == n % 10);
    assert(text::decimal(n) == text::decimal(n / 10).push(text::digit_char(n % 10)));
    assert(text::decimal(n / 10) == text::decimal(n / 10 / 10).push(
        text::digit_char(n / 10 % 10),
    ));
    assert(text::decimal(n / 10 / 10) == text::decimal(n / 10 / 10 / 10).push(
        text::digit_char(n / 10 / 10 % 10),
    ));
}

proof fn small_numerals_are_short(n: nat)
    requires
        n < 1000,
    ensures
        text::decimal(n).len() <= 3,
{
    reveal_with_fuel(text::decimal, 4);
}

/// A grouped numeral has the digits of the number, in their order, and a comma in front of every
/// third digit from the end, but not in front of all.
pub proof fn groups_have_three_digits(n: nat)
    ensures
        without_commas(grouped(n)) == text::decimal(n),
        forall|i: int|
            0 <= i < grouped(n).len() ==> (#[trigger] grouped(n)[i] == ',' <==> (grouped(n).len()
                - i) % 4 == 0),
        grouped(n).len() > 0,
        grouped(n)[0] != ',',
    decreases n,
{
    reveal_strlit(",");
    text::decimal_denotes(n);
    if n < 1000 {
        small_numerals_are_short(n);
        digits_have_no_commas(text::decimal(n));
        assert forall|i: int| 0 <= i < grouped(n).len() implies grouped(n)[i] != ',' by {
            assert(text::digit(text::decimal(n)[i]));
        }
    } else {
        groups_have_three_digits(n / 1000);
        last_three_digits(n);
        let head = grouped(n / 1000);
        let group = three_digits(n % 1000);
        assert(text::all_digits(group));
        digits_have_no_commas(group);
        without_commas_adds_up(head, ","@);
        without_commas_adds_up(head + ","@, group);
        assert(without_commas(","@.drop_last()) == Seq::<char>::empty());
        assert(without_commas(","@) == Seq::<char>::empty());
        assert(without_commas(head) + Seq::<char>::empty() == without_commas(head));
        let s = grouped(n);
        assert(s.len() == head.len() + 4);
        assert forall|i: int| 0 <= i < s.len() implies (#[trigger] s[i] == ',' <==> (s.len() - i)
            % 4 == 0) by {
            if i < head.len() {
                assert(s[i] == head[i]);
                assert((s.len() - i) % 4 == (head.len() - i) % 4);
            } else if i > head.len() {
                assert(s[i] == group[i - head.len() - 1]);
                assert(text::digit(group[i - head.len() - 1]));
            }
        }
        assert(s[0] == head[0]);
    }
}

/// The megabytes are those of the tenth that is nearest: some number of tenths, no further than
/// half a tenth off, with a point before the last digit.
pub proof fn megabytes_are_nearest(bytes: nat) -> (tenths: nat)
    ensures
        megabytes(bytes) == text::decimal(tenths / 10) + "."@ + text::decimal(tenths % 10),
        -50_000 <= tenths * 100_000 - bytes <= 50_000,
{
    (bytes + 50_000) / 100_000
}

/// Tags stand in a line in their order with commas between them, and whether any entry is untagged
/// is said at the end.
pub proof fn tags_are_joined(tags: Seq<Option<Seq<char>>>, tag: Seq<char>)
    requires
        !tags.contains(None),
    ensures
        tags.len() == 0 ==> tag_line(tags.push(Some(tag))) == tag,
        tags.len() > 0 ==> tag_line(tags.push(Some(tag))) == tag_line(tags) + ", "@ + tag,
        tag_line(seq![None]) == "(untagged)"@,
        tags.len() > 0 ==> tag_line(tags.push(None)) == tag_line(tags) + ", (untagged)"@,
        tag_line(seq![]) == "(none)"@,
{
    reveal_strlit(", ");
    reveal_strlit("(untagged)");
    reveal_strlit(", (untagged)");
    assert(", "@ + "(untagged)"@ == ", (untagged)"@);
    let none = seq![None::<Seq<char>>];
    assert(none[0] == None::<Seq<char>>);
    assert(none.drop_last() == Seq::<Option<Seq<char>>>::empty());
    assert(named_tags(none.drop_last()) == Seq::<char>::empty());
    assert(named_tags(none) == Seq::<char>::empty());
    assert(Seq::<char>::empty() + "(untagged)"@ == "(untagged)"@);
    let longer = tags.push(Some(tag));
    assert(longer.drop_last() == tags);
    assert(!longer.contains(None)) by {
        assert forall|i: int| 0 <= i < longer.len() implies longer[i] != None::<Seq<char>> by {
            if i < tags.len() {
                assert(longer[i] == tags[i]);
            }
        }
    }
    let named = named_tags(tags) + (tag + ", "@);
    assert(named_tags(longer) == named);
    assert(named.take(named.len() - 2) == named_tags(tags) + tag);
    let untagged = tags.push(None);
    assert(untagged[tags.len() as int] == None::<Seq<char>>);
    assert(untagged.drop_last() == tags);
    assert(named_tags(untagged) == named_tags(tags));
    if tags.len() == 0 {
        assert(tags == Seq::<Option<Seq<char>>>::empty());
        assert(named_tags(tags) == Seq::<char>::empty());
        assert(Seq::<char>::empty() + tag == tag);
    } else {
        assert(tags.last() is Some) by {
            assert(tags[tags.len() - 1] != None::<Seq<char>>);
        }
        let n = named_tags(tags);
        let before = named_tags(tags.drop_last());
        assert(n == before + (tags.last()->0 + ", "@));
        assert(n == n.take(n.len() - 2) + ", "@);
        assert(n.take(n.len() - 2) + ", "@ + tag == n + tag);
        assert(n.take(n.len() - 2) + (", "@ + "(untagged)"@) == n + "(untagged)"@);
    }
}

/// What is shown of an index gives its path, the number of entries, the two bounds of time where
/// there are both, the tags, and the size in megabytes and in bytes, each under its name.
pub proof fn reports_stand_under_their_names(path: Seq<char>, stats: Stats, bytes: nat)
    ensures
        index_report(path, stats, bytes) == "logdive index: "@ + path + "\n  Entries:       "@
            + grouped(stats.entries as nat) + "\n  Time range:    "@ + match (
            stats.min_timestamp,
            stats.max_timestamp,
        ) {
            (Some(a), Some(b)) => a@ + " → "@ + b@,
            _ => "(none)"@,
        } + "\n  Tags:          "@ + tag_line(
            Seq::new(
                stats.tags@.len(),
                |i: int|
                    match stats.tags@[i] {
                        Some(t) => Some(t@),
                        None => None,
                    },
            ),
        ) + "\n  DB size:       "@ + megabytes(bytes) + " MB ("@ + grouped(bytes) + " bytes)\n"@,
{
    let tags = Seq::new(
        stats.tags@.len(),
        |i: int|
            match stats.tags@[i] {
                Some(t) => Some(t@),
                None => None,
            },
    );
    assert(store::text_views(stats.tags@) =~= tags);
}

/// The numeral of a number with a comma between groups of three digits.
pub fn grouped_text(n: u64) -> (r: String)
    ensures
        r@ == grouped(n as nat),
    decreases n,
{
    if n < 1000 {
        return decimal_text(n);
    }
    let mut r = grouped_text(n / 1000);
    let rest: u64 = n % 1000;
    let mut group = String::new();
    group.push((48u8 + (rest / 100) as u8) as char);
    group.push((48u8 + (rest / 10 % 10) as u8) as char);
    group.push((48u8 + (rest % 10) as u8) as char);
    r.append(",");
    r.append(group.as_str());
    r
}

/// The megabytes in so many bytes, to the nearest tenth.
pub fn megabytes_text(bytes: u64) -> (r: String)
    ensures
        r@ == megabytes(bytes as nat),
{
    let whole: u64 = bytes / 100_000;
    let tenths: u64 = if bytes % 100_000 >= 50_000 {
        whole + 1
    } else {
        whole
    };
    let mut r = decimal_text(tenths / 10);
    r.append(".");
    r.append(decimal_text(tenths % 10).as_str());
    r
}

/// The tags in a line: those that are named in their order, and untagged last.
fn tag_line_text(tags: &Vec<Option<String>>) -> (r: String)
    ensures
        r@ == tag_line(store::text_views(tags@)),
{
    let ghost models = store::text_views(tags@);
    let mut named = String::new();
    let mut shown = String::new();
    let mut untagged = false;
    let mut any = false;
    let mut i: usize = 0;
    proof {
        reveal_strlit(", ");
    }
    while i < tags.len()
        invariant
            i <= tags@.len(),
            models == store::text_views(tags@),
            ", "@.len() == 2,
            named@ == named_tags(models.take(i as int)),
            untagged == exists|j: int| 0 <= j < i && #[trigger] models[j] is None,
            any == (named@.len() >= 2),
            any ==> named@ == shown@ + ", "@,
            !any ==> named@ == Seq::<char>::empty(),
        decreases tags@.len() - i,
    {
        assert(models.take(i + 1).drop_last() == models.take(i as int));
        match &tags[i] {
            Some(tag) => {
                shown = named.clone();
                shown.append(tag.as_str());
                named.append(tag.as_str());
                named.append(", ");
                any = true;
            },
            None => {
                untagged = true;
            },
        }
        i = i + 1;
    }
    assert(models.take(i as int) == models);
    if untagged {
        named.append("(untagged)");
        named
    } else {
        if any {
            shown
        } else {
            "(none)".to_owned()
        }
    }
}

/// What is shown of an index at `path` whose file has so many bytes.
pub fn index_report_text(path: &str, stats: &Stats, bytes: u64) -> (r: String)
    ensures
        r@ == index_report(path@, *stats, bytes as nat),
{
    let mut r = "logdive index: ".to_owned();
    r.append(path);
    r.append("\n  Entries:       ");
    r.append(grouped_text(stats.entries).as_str());
    r.append("\n  Time range:    ");
    let mut range = String::new();
    match (&stats.min_timestamp, &stats.max_timestamp) {
        (Some(earliest), Some(latest)) => {
            range.append(earliest.as_str());
            range.append(" → ");
            range.append(latest.as_str());
        },
        _ => {
            range.append("(none)");
        },
    }
    r.append(range.as_str());
    r.append("\n  Tags:          ");
    r.append(tag_line_text(&stats.tags).as_str());
    r.append("\n  DB size:       ");
    r.append(megabytes_text(bytes).as_str());
    r.append(" MB (");
    r.append(grouped_text(bytes).as_str());
    r.append(" bytes)\n");
    r
}

// ---------------------------------------------------------------------------
// Entries
// ---------------------------------------------------------------------------

/// The colour of a level, as a terminal knows it.
pub open spec fn level_color(level: Seq<char>) -> Seq<char> {
    let l = text::folded(level);
    if l == "error"@ || l == "fatal"@ {
        "31"@
    } else if l == "warn"@ || l == "warning"@ {
        "33"@
    } else if l == "info"@ {
        "32"@
    } else {
        "36"@
    }
}

/// A text, or a dash where it is absent.
pub open spec fn or_dash(t: Option<Seq<char>>) -> Seq<char> {
    match t {
        Some(t) => t,
        None => "-"@,
    }
}

/// A level, in its colour if there are colours.
pub open spec fn shown_level(level: Seq<char>, colored: bool) -> Seq<char> {
    if colored {
        "\u{1b}["@ + level_color(level) + "m"@ + level + "\u{1b}[0m"@
    } else {
        level
    }
}

/// An entry as a line for people: the known fields, and the others as JSON where there are any.
pub open spec fn pretty(e: EntryModel, colored: bool) -> Seq<char> {
    or_dash(e.timestamp) + " "@ + shown_level(or_dash(e.level), colored) + match e.tag {
        Some(tag) => " ["@ + tag + "]"@,
        None => seq![],
    } + match e.message {
        Some(message) => " "@ + message,
        None => seq![],
    } + (if json::members_printed(e.fields) == "{}"@ {
        seq![]
    } else {
        " "@ + json::members_printed(e.fields)
    }) + "\n"@
}

/// Colours go round the level and change nothing else: a coloured line is the plain one with the
/// level between two codes. The first code is red for errors, yellow for warnings, green for what
/// informs and cyan for the rest, whatever the case of the level.
pub proof fn colours_go_round_the_level(e: EntryModel) -> (rest: Seq<char>)
    ensures
        ({
            let time = match e.timestamp {
                Some(t) => t,
                None => "-"@,
            };
            let level = match e.level {
                Some(l) => l,
                None => "-"@,
            };
            let small = text::folded(level);
            let code = if small == "error"@ || small == "fatal"@ {
                "31"@
            } else if small == "warn"@ || small == "warning"@ {
                "33"@
            } else if small == "info"@ {
                "32"@
            } else {
                "36"@
            };
            &&& pretty(e, false) == time + " "@ + level + rest
            &&& pretty(e, true) == time + " "@ + ("\u{1b}["@ + code + "m"@ + level
                + "\u{1b}[0m"@) + rest
        }),
        rest == match e.tag {
            Some(tag) => " ["@ + tag + "]"@,
            None => seq![],
        } + match e.message {
            Some(message) => " "@ + message,
            None => seq![],
        } + (if json::members_printed(e.fields) == "{}"@ {
            seq![]
        } else {
            " "@ + json::members_printed(e.fields)
        }) + "\n"@,
{
    let tag: Seq<char> = match e.tag {
        Some(tag) => " ["@ + tag + "]"@,
        None => seq![],
    };
    let message: Seq<char> = match e.message {
        Some(message) => " "@ + message,
        None => seq![],
    };
    let fields: Seq<char> = if json::members_printed(e.fields) == "{}"@ {
        seq![]
    } else {
        " "@ + json::members_printed(e.fields)
    };
    let rest = tag + message + fields + "\n"@;
    let plain = or_dash(e.timestamp) + " "@ + shown_level(or_dash(e.level), false);
    let coloured = or_dash(e.timestamp) + " "@ + shown_level(or_dash(e.level), true);
    assert(pretty(e, false) == plain + tag + message + fields + "\n"@);
    assert(plain + tag + message + fields + "\n"@ == plain + rest);
    assert(pretty(e, true) == coloured + tag + message + fields + "\n"@);
    assert(coloured + tag + message + fields + "\n"@ == coloured + rest);
    rest
}

fn level_color_text(level: &str) -> (r: &'static str)
    ensures
        r@ == level_color(level@),
{
    let l = fold(level);
    if same_text(l.as_str(), "error") || same_text(l.as_str(), "fatal") {
        "31"
    } else if same_text(l.as_str(), "warn") || same_text(l.as_str(), "warning") {
        "33"
    } else if same_text(l.as_str(), "info") {
        "32"
    } else {
        "36"
    }
}

fn text_or_dash(t: &Option<String>) -> (r: &str)
    ensures
        r@ == or_dash(json::text_view(*t)),
{
    match t {
        Some(t) => t.as_str(),
        None => "-",
    }
}

fn append_level(line: &mut String, level: &str, colored: bool)
    ensures
        final(line)@ == old(line)@ + shown_level(level@, colored),
{
    if colored {
        let mut shown = "\u{1b}[".to_owned();
        shown.append(level_color_text(level));
        shown.append("m");
        shown.append(level);
        shown.append("\u{1b}[0m");
        line.append(shown.as_str());
    } else {
        line.append(level);
    }
}

/// An entry as a line for people.
pub fn pretty_line(entry: &LogEntry, colored: bool) -> (r: String)
    ensures
        r@ == pretty(entry@, colored),
{
    let mut line = text_or_dash(&entry.timestamp).to_owned();
    line.append(" ");
    append_level(&mut line, text_or_dash(&entry.level), colored);
    if let Some(tag) = &entry.tag {
        let mut part = " [".to_owned();
        part.append(tag.as_str());
        part.append("]");
        line.append(part.as_str());
    }
    if let Some(message) = &entry.message {
        let mut part = " ".to_owned();
        part.append(message.as_str());
        line.append(part.as_str());
    }
    let fields = json::print_members(&entry.fields);
    if !same_text(fields.as_str(), "{}") {
        let mut part = " ".to_owned();
        part.append(fields.as_str());
        line.append(part.as_str());
    }
    line.append("\n");
    line
}

} // verus!
