//! Reading the block-formatted output of `pactl list sinks`.
use vstd::prelude::*;

use crate::text::{
    all_white_space, find_newline, has_prefix, lemma_newline_offset, lemma_trim_padded, lemma_newline_offset_props,
    lemma_trim_plain, lemma_trim_strip_carriage_return, lines, is_white_space, newline_offset, starts_with, str_to_chars,
    strip_carriage_return, trim, trim_bounds,
};

verus! {

broadcast use vstd::string::group_string_axioms;

/// One output sink as `pactl list sinks` describes it.
pub struct PactlSink {
    pub name: String,
    pub description: String,
    pub monitor_source: String,
}

/// A sink's fields as character sequences.
pub struct SinkView {
    pub name: Seq<char>,
    pub description: Seq<char>,
    pub monitor_source: Seq<char>,
}

impl View for PactlSink {
    type V = SinkView;

    open spec fn view(&self) -> SinkView {
        SinkView {
            name: self.name@,
            description: self.description@,
            monitor_source: self.monitor_source@,
        }
    }
}

/// The views of a list of sinks.
pub open spec fn sinks_view(sinks: Seq<PactlSink>) -> Seq<SinkView> {
    sinks.map_values(|s: PactlSink| s@)
}

/// The fields read so far for the sink block being read.
pub struct SinkFields {
    pub name: Option<Seq<char>>,
    pub description: Option<Seq<char>>,
    pub monitor_source: Option<Seq<char>>,
}

/// Where a reading of the output stands: the sinks completed, and the block being
/// read, if a `Sink #` header has been seen.
pub struct ParseState {
    pub sinks: Seq<SinkView>,
    pub current: Option<SinkFields>,
}

/// The line that opens a sink block.
pub open spec fn sink_header() -> Seq<char> {
    "Sink #"@
}

/// The label of a sink's name.
pub open spec fn name_label() -> Seq<char> {
    "Name: "@
}

/// The label of a sink's description.
pub open spec fn description_label() -> Seq<char> {
    "Description: "@
}

/// The label of a sink's monitor source.
pub open spec fn monitor_label() -> Seq<char> {
    "Monitor Source: "@
}

/// `sinks` with the block `current` appended, where that block is complete: it
/// has a name and a monitor source (a missing description reads as empty).
pub open spec fn flush(sinks: Seq<SinkView>, current: Option<SinkFields>) -> Seq<SinkView> {
    match current {
        Some(f) => {
            if f.name is Some && f.monitor_source is Some {
                sinks.push(
                    SinkView {
                        name: f.name->0,
                        description: match f.description {
                            Some(d) => d,
                            None => Seq::empty(),
                        },
                        monitor_source: f.monitor_source->0,
                    },
                )
            } else {
                sinks
            }
        },
        None => sinks,
    }
}

/// `current` with its name set, where a block is open.
pub open spec fn with_name(current: Option<SinkFields>, v: Seq<char>) -> Option<SinkFields> {
    match current {
        Some(f) => Some(
            SinkFields { name: Some(v), description: f.description, monitor_source: f.monitor_source },
        ),
        None => None,
    }
}

/// `current` with its description set, where a block is open.
pub open spec fn with_description(current: Option<SinkFields>, v: Seq<char>) -> Option<
    SinkFields,
> {
    match current {
        Some(f) => Some(
            SinkFields { name: f.name, description: Some(v), monitor_source: f.monitor_source },
        ),
        None => None,
    }
}

/// `current` with its monitor source set, where a block is open.
pub open spec fn with_monitor(current: Option<SinkFields>, v: Seq<char>) -> Option<SinkFields> {
    match current {
        Some(f) => Some(
            SinkFields { name: f.name, description: f.description, monitor_source: Some(v) },
        ),
        None => None,
    }
}

/// What one trimmed line does to the reading.
pub open spec fn parse_step(st: ParseState, line: Seq<char>) -> ParseState {
    if starts_with(line, sink_header()) {
        ParseState {
            sinks: flush(st.sinks, st.current),
            current: Some(SinkFields { name: None, description: None, monitor_source: None }),
        }
    } else if starts_with(line, name_label()) {
        ParseState {
            sinks: st.sinks,
            current: with_name(st.current, line.skip(name_label().len() as int)),
        }
    } else if starts_with(line, description_label()) {
        ParseState {
            sinks: st.sinks,
            current: with_description(st.current, line.skip(description_label().len() as int)),
        }
    } else if starts_with(line, monitor_label()) {
        ParseState {
            sinks: st.sinks,
            current: with_monitor(st.current, line.skip(monitor_label().len() as int)),
        }
    } else {
        st
    }
}

/// The reading after each of `ls`, trimmed, in turn.
pub open spec fn parse_lines(st: ParseState, ls: Seq<Seq<char>>) -> ParseState
    decreases ls.len(),
{
    if ls.len() == 0 {
        st
    } else {
        parse_lines(parse_step(st, trim(ls[0])), ls.drop_first())
    }
}

/// The reading before any line.
pub open spec fn initial_state() -> ParseState {
    ParseState { sinks: Seq::empty(), current: None }
}

/// The sinks that the text `output` of `pactl list sinks` describes: each block
/// opened by a `Sink #` line and holding a `Name: ` and a `Monitor Source: ` line
/// gives one sink, in order; a later line of a kind overrides an earlier one.
pub open spec fn pactl_sinks(output: Seq<char>) -> Seq<SinkView> {
    let end = parse_lines(initial_state(), lines(output));
    flush(end.sinks, end.current)
}

/// How many of `ls`, trimmed, open a sink block.
pub open spec fn header_count(ls: Seq<Seq<char>>) -> nat
    decreases ls.len(),
{
    if ls.len() == 0 {
        0
    } else {
        (if starts_with(trim(ls[0]), sink_header()) {
            1nat
        } else {
            0nat
        }) + header_count(ls.drop_first())
    }
}

/// The sinks completed and the block open, counted.
pub open spec fn open_count(st: ParseState) -> nat {
    st.sinks.len() + if st.current is Some {
        1nat
    } else {
        0nat
    }
}

proof fn lemma_parse_lines_count(st: ParseState, ls: Seq<Seq<char>>)
    ensures
        open_count(parse_lines(st, ls)) <= open_count(st) + header_count(ls),
    decreases ls.len(),
{
    if ls.len() > 0 {
        lemma_parse_lines_count(parse_step(st, trim(ls[0])), ls.drop_first());
    }
}

/// Every sink read comes from its own `Sink #` block: there are no more sinks
/// than header lines.
pub proof fn lemma_sinks_need_headers(output: Seq<char>)
    ensures
        pactl_sinks(output).len() <= header_count(lines(output)),
{
    lemma_parse_lines_count(initial_state(), lines(output));
}

/// An empty line changes nothing.
proof fn lemma_empty_line(st: ParseState)
    ensures
        parse_step(st, trim(Seq::<char>::empty())) == st,
{
    reveal_strlit("Sink #");
    reveal_strlit("Name: ");
    reveal_strlit("Description: ");
    reveal_strlit("Monitor Source: ");
}

proof fn lemma_parse_trailing_newline(st: ParseState, t: Seq<char>)
    ensures
        parse_lines(st, lines(t.push('\n'))) == parse_lines(st, lines(t)),
    decreases t.len(),
{
    let u = t.push('\n');
    lemma_newline_offset_props(t);
    let k = newline_offset(t) as int;
    let none = Seq::<Seq<char>>::empty();
    if t.len() == 0 {
        lemma_newline_offset(u, 0);
        let e = Seq::<char>::empty();
        assert(u.take(0) =~= e);
        assert(u.skip(1) =~= e);
        assert(strip_carriage_return(e) == e);
        assert(lines(u) == seq![e] + lines(e));
        assert(seq![e] + none =~= seq![e]);
        lemma_parse_lines_cons(st, e, none);
        lemma_empty_line(st);
        assert(parse_lines(st, lines(u)) == st);
        assert(lines(t) == none);
    } else if k >= t.len() {
        lemma_newline_offset(u, t.len() as int);
        assert(u.take(t.len() as int) =~= t);
        assert(u.skip(t.len() + 1int) =~= Seq::<char>::empty());
        assert(lines(Seq::<char>::empty()) == none);
        let line = strip_carriage_return(t);
        assert(lines(u) == seq![strip_carriage_return(u.take(t.len() as int))] + lines(
            u.skip(t.len() + 1int),
        ));
        assert(lines(u) == seq![line] + none);
        assert(lines(t) == seq![t]);
        assert(seq![t] + none =~= seq![t]);
        lemma_trim_strip_carriage_return(t);
        lemma_parse_lines_cons(st, line, none);
        lemma_parse_lines_cons(st, t, none);
    } else {
        lemma_newline_offset(u, k);
        assert(u.take(k) =~= t.take(k));
        assert(u.skip(k + 1) =~= t.skip(k + 1).push('\n'));
        let line = strip_carriage_return(t.take(k));
        assert(lines(u) == seq![line] + lines(u.skip(k + 1)));
        assert(lines(t) == seq![line] + lines(t.skip(k + 1)));
        lemma_parse_lines_cons(st, line, lines(u.skip(k + 1)));
        lemma_parse_lines_cons(st, line, lines(t.skip(k + 1)));
        lemma_parse_trailing_newline(parse_step(st, trim(line)), t.skip(k + 1));
    }
}

/// A final line ending is optional: the sinks read from `output` with a line
/// feed appended are those read from `output`.
pub proof fn lemma_final_line_ending_optional(output: Seq<char>)
    ensures
        pactl_sinks(output.push('\n')) == pactl_sinks(output),
{
    lemma_parse_trailing_newline(initial_state(), output);
}

proof fn lemma_lines_concat(a: Seq<char>, b: Seq<char>)
    requires
        a.len() == 0 || a.last() == '\n',
    ensures
        lines(a + b) == lines(a) + lines(b),
    decreases a.len(),
{
    if a.len() == 0 {
        assert(a + b =~= b);
        assert(lines(a) + lines(b) =~= lines(b));
    } else {
        lemma_newline_offset_props(a);
        let k = newline_offset(a) as int;
        if k >= a.len() {
            assert(a[a.len() - 1] != '\n');
        }
        let ab = a + b;
        assert forall|j: int| 0 <= j < k implies ab[j] != '\n' by {
            assert(ab[j] == a[j]);
        }
        assert(ab[k] == a[k]);
        lemma_newline_offset(ab, k);
        let rest = a.skip(k + 1);
        assert(ab.take(k) =~= a.take(k));
        assert(ab.skip(k + 1) =~= rest + b);
        if rest.len() > 0 {
            assert(rest.last() == a.last());
        }
        lemma_lines_concat(rest, b);
        let first = seq![strip_carriage_return(a.take(k))];
        assert(lines(ab) == first + lines(rest + b));
        assert(lines(a) == first + lines(rest));
        assert(first + (lines(rest) + lines(b)) =~= (first + lines(rest)) + lines(b));
    }
}

proof fn lemma_parse_lines_append(st: ParseState, l1: Seq<Seq<char>>, l2: Seq<Seq<char>>)
    ensures
        parse_lines(st, l1 + l2) == parse_lines(parse_lines(st, l1), l2),
    decreases l1.len(),
{
    if l1.len() == 0 {
        assert(l1 + l2 =~= l2);
    } else {
        assert((l1 + l2)[0] == l1[0]);
        assert((l1 + l2).drop_first() =~= l1.drop_first() + l2);
        lemma_parse_lines_append(parse_step(st, trim(l1[0])), l1.drop_first(), l2);
    }
}

proof fn lemma_flush_prefix(pre: Seq<SinkView>, sinks: Seq<SinkView>, current: Option<SinkFields>)
    ensures
        flush(pre + sinks, current) == pre + flush(sinks, current),
{
    match current {
        Some(f) => {
            if f.name is Some && f.monitor_source is Some {
                let v = SinkView {
                    name: f.name->0,
                    description: match f.description {
                        Some(d) => d,
                        None => Seq::empty(),
                    },
                    monitor_source: f.monitor_source->0,
                };
                assert((pre + sinks).push(v) =~= pre + sinks.push(v));
            }
        },
        None => {},
    }
}

/// `st` with the sinks `pre` put before its own.
spec fn with_prefix(pre: Seq<SinkView>, st: ParseState) -> ParseState {
    ParseState { sinks: pre + st.sinks, current: st.current }
}

proof fn lemma_parse_lines_prefix(pre: Seq<SinkView>, st: ParseState, ls: Seq<Seq<char>>)
    ensures
        parse_lines(with_prefix(pre, st), ls) == with_prefix(pre, parse_lines(st, ls)),
    decreases ls.len(),
{
    if ls.len() > 0 {
        let line = trim(ls[0]);
        let next = parse_step(st, line);
        lemma_flush_prefix(pre, st.sinks, st.current);
        assert(parse_step(with_prefix(pre, st), line) == with_prefix(pre, next));
        lemma_parse_lines_prefix(pre, next, ls.drop_first());
    }
}

/// Listings put one after the other read as one listing: where the first ends
/// with a line feed (or is empty) and the second opens with a `Sink #` line, the
/// sinks of the two together are those of the first followed by those of the
/// second.
pub proof fn lemma_listings_concatenate(a: Seq<char>, b: Seq<char>)
    requires
        a.len() == 0 || a.last() == '\n',
        lines(b).len() > 0,
        starts_with(trim(lines(b)[0]), sink_header()),
    ensures
        pactl_sinks(a + b) == pactl_sinks(a) + pactl_sinks(b),
{
    let la = lines(a);
    let lb = lines(b);
    lemma_lines_concat(a, b);
    lemma_parse_lines_append(initial_state(), la, lb);
    let end_a = parse_lines(initial_state(), la);
    let pre = pactl_sinks(a);
    let h = lb[0];
    let rest = lb.drop_first();
    assert(lb =~= seq![h] + rest);
    lemma_parse_lines_cons(end_a, h, rest);
    lemma_parse_lines_cons(initial_state(), h, rest);
    let opened = SinkFields { name: None, description: None, monitor_source: None };
    let x = ParseState { sinks: Seq::empty(), current: Some(opened) };
    assert(parse_step(initial_state(), trim(h)) == x);
    assert(pre + x.sinks =~= pre);
    assert(parse_step(end_a, trim(h)) == with_prefix(pre, x));
    lemma_parse_lines_prefix(pre, x, rest);
    let end_b = parse_lines(x, rest);
    lemma_flush_prefix(pre, end_b.sinks, end_b.current);
}

proof fn lemma_parse_lines_same_trims(st: ParseState, l1: Seq<Seq<char>>, l2: Seq<Seq<char>>)
    requires
        l1.len() == l2.len(),
        forall|i: int| 0 <= i < l1.len() ==> trim(#[trigger] l1[i]) == trim(l2[i]),
    ensures
        parse_lines(st, l1) == parse_lines(st, l2),
    decreases l1.len(),
{
    if l1.len() > 0 {
        assert(trim(l1[0]) == trim(l2[0]));
        assert forall|i: int| 0 <= i < l1.drop_first().len() implies trim(
            #[trigger] l1.drop_first()[i],
        ) == trim(l2.drop_first()[i]) by {
            assert(l1.drop_first()[i] == l1[i + 1]);
            assert(l2.drop_first()[i] == l2[i + 1]);
        }
        lemma_parse_lines_same_trims(parse_step(st, trim(l1[0])), l1.drop_first(), l2.drop_first());
    }
}

/// Indentation and trailing blanks do not matter: where each line of `padded`
/// is the same line of `output` with white space added before and after it, the
/// two give the same sinks.
pub proof fn lemma_padding_changes_nothing(output: Seq<char>, padded: Seq<char>)
    requires
        lines(padded).len() == lines(output).len(),
        forall|i: int|
            0 <= i < lines(output).len() ==> exists|p: Seq<char>, q: Seq<char>|
                all_white_space(p) && all_white_space(q) && #[trigger] lines(padded)[i] == p
                    + lines(output)[i] + q,
    ensures
        pactl_sinks(padded) == pactl_sinks(output),
{
    let lo = lines(output);
    let lp = lines(padded);
    assert forall|i: int| 0 <= i < lp.len() implies trim(#[trigger] lp[i]) == trim(lo[i]) by {
        let (p, q) = choose|p: Seq<char>, q: Seq<char>|
            all_white_space(p) && all_white_space(q) && lp[i] == p + lo[i] + q;
        lemma_trim_padded(p, lo[i], q);
    }
    lemma_parse_lines_same_trims(initial_state(), lp, lo);
}

/// The lines of a single line ended by a line feed.
proof fn lemma_lines_of_one_line(line: Seq<char>)
    requires
        forall|i: int| 0 <= i < line.len() ==> line[i] != '\n',
    ensures
        lines(line.push('\n')) == seq![strip_carriage_return(line)],
{
    let u = line.push('\n');
    assert forall|j: int| 0 <= j < line.len() implies u[j] != '\n' by {
        assert(u[j] == line[j]);
    }
    lemma_newline_offset(u, line.len() as int);
    assert(u.take(line.len() as int) =~= line);
    assert(u.skip(line.len() + 1int) =~= Seq::<char>::empty());
    assert(lines(Seq::<char>::empty()) == Seq::<Seq<char>>::empty());
    assert(seq![strip_carriage_return(line)] + Seq::<Seq<char>>::empty() =~= seq![
        strip_carriage_return(line),
    ]);
}

/// Lines other than a `Sink #` header and the `Name: `, `Description: ` and
/// `Monitor Source: ` fields are ignored: inserting such a line anywhere in a
/// listing gives the same sinks.
pub proof fn lemma_other_lines_ignored(a: Seq<char>, line: Seq<char>, b: Seq<char>)
    requires
        a.len() == 0 || a.last() == '\n',
        forall|i: int| 0 <= i < line.len() ==> line[i] != '\n',
        !starts_with(trim(line), "Sink #"@),
        !starts_with(trim(line), "Name: "@),
        !starts_with(trim(line), "Description: "@),
        !starts_with(trim(line), "Monitor Source: "@),
    ensures
        pactl_sinks(a + line.push('\n') + b) == pactl_sinks(a + b),
{
    let l = line.push('\n');
    assert(a + l + b =~= a + (l + b));
    lemma_lines_concat(a, l + b);
    lemma_lines_concat(l, b);
    lemma_lines_concat(a, b);
    lemma_lines_of_one_line(line);
    let s = strip_carriage_return(line);
    let la = lines(a);
    let lb = lines(b);
    assert(lines(a + l + b) == la + (seq![s] + lb));
    lemma_parse_lines_append(initial_state(), la, seq![s] + lb);
    lemma_parse_lines_append(initial_state(), la, lb);
    let ea = parse_lines(initial_state(), la);
    lemma_parse_lines_cons(ea, s, lb);
    lemma_trim_strip_carriage_return(line);
    assert(parse_step(ea, trim(s)) == ea);
}

/// Whether `s` holds no line feed.
pub open spec fn one_line(s: Seq<char>) -> bool {
    forall|i: int| 0 <= i < s.len() ==> s[i] != '\n'
}

/// Whether `s` is empty or does not end with white space.
pub open spec fn no_trailing_blank(s: Seq<char>) -> bool {
    s.len() > 0 ==> !is_white_space(s.last())
}

/// Reading a line ended by a line feed, then the rest.
proof fn lemma_parse_through(st: ParseState, x: Seq<char>, rest: Seq<char>)
    requires
        one_line(x),
    ensures
        parse_lines(st, lines(x.push('\n') + rest)) == parse_lines(
            parse_step(st, trim(x)),
            lines(rest),
        ),
{
    lemma_lines_of_one_line(x);
    lemma_lines_concat(x.push('\n'), rest);
    lemma_parse_lines_cons(st, strip_carriage_return(x), lines(rest));
    lemma_trim_strip_carriage_return(x);
}

/// `label` followed by `value` is one line that trims to itself, starts with
/// `label` and carries `value` after it.
proof fn lemma_field_line(label: Seq<char>, value: Seq<char>)
    requires
        label.len() > 0,
        !is_white_space(label[0]),
        !is_white_space(label.last()) || value.len() > 0,
        one_line(label),
        one_line(value),
        no_trailing_blank(value),
    ensures
        trim(label + value) == label + value,
        (label + value).skip(label.len() as int) == value,
        starts_with(label + value, label),
        one_line(label + value),
{
    let x = label + value;
    assert(x[0] == label[0]);
    if value.len() > 0 {
        assert(x.last() == value.last());
    } else {
        assert(x.last() == label.last());
    }
    lemma_trim_plain(x);
    assert(x.skip(label.len() as int) =~= value);
    assert(x.take(label.len() as int) =~= label);
    assert forall|i: int| 0 <= i < x.len() implies x[i] != '\n' by {
        if i >= label.len() {
            assert(x[i] == value[i - label.len()]);
        }
    }
}

/// What a `Sink #` line does.
proof fn lemma_header_step(st: ParseState, number: Seq<char>)
    requires
        one_line(number),
        no_trailing_blank(number),
    ensures
        one_line("Sink #"@ + number),
        parse_step(st, trim("Sink #"@ + number)) == (ParseState {
            sinks: flush(st.sinks, st.current),
            current: Some(SinkFields { name: None, description: None, monitor_source: None }),
        }),
{
    reveal_strlit("Sink #");
    lemma_field_line("Sink #"@, number);
}

/// What a `Name: ` line does.
proof fn lemma_name_step(st: ParseState, v: Seq<char>)
    requires
        one_line(v),
        no_trailing_blank(v),
        v.len() > 0,
    ensures
        one_line("Name: "@ + v),
        parse_step(st, trim("Name: "@ + v)) == (ParseState {
            sinks: st.sinks,
            current: with_name(st.current, v),
        }),
{
    reveal_strlit("Sink #");
    reveal_strlit("Name: ");
    lemma_field_line("Name: "@, v);
    let x = "Name: "@ + v;
    assert(!starts_with(x, sink_header())) by {
        assert(x.take(6)[0] != sink_header()[0]);
    }
}

/// What a `Description: ` line does.
proof fn lemma_description_step(st: ParseState, v: Seq<char>)
    requires
        one_line(v),
        no_trailing_blank(v),
        v.len() > 0,
    ensures
        one_line("Description: "@ + v),
        parse_step(st, trim("Description: "@ + v)) == (ParseState {
            sinks: st.sinks,
            current: with_description(st.current, v),
        }),
{
    reveal_strlit("Sink #");
    reveal_strlit("Name: ");
    reveal_strlit("Description: ");
    lemma_field_line("Description: "@, v);
    let x = "Description: "@ + v;
    assert(!starts_with(x, sink_header())) by {
        assert(x.take(6)[0] != sink_header()[0]);
    }
    assert(!starts_with(x, name_label())) by {
        assert(x.take(6)[0] != name_label()[0]);
    }
}

/// What a `Monitor Source: ` line does.
proof fn lemma_monitor_step(st: ParseState, v: Seq<char>)
    requires
        one_line(v),
        no_trailing_blank(v),
        v.len() > 0,
    ensures
        one_line("Monitor Source: "@ + v),
        parse_step(st, trim("Monitor Source: "@ + v)) == (ParseState {
            sinks: st.sinks,
            current: with_monitor(st.current, v),
        }),
{
    reveal_strlit("Sink #");
    reveal_strlit("Name: ");
    reveal_strlit("Description: ");
    reveal_strlit("Monitor Source: ");
    lemma_field_line("Monitor Source: "@, v);
    let x = "Monitor Source: "@ + v;
    assert(!starts_with(x, sink_header())) by {
        assert(x.take(6)[0] != sink_header()[0]);
    }
    assert(!starts_with(x, name_label())) by {
        assert(x.take(6)[0] != name_label()[0]);
    }
    assert(!starts_with(x, description_label())) by {
        assert(x.take(13)[0] != description_label()[0]);
    }
}

/// The text of a `Sink #` line.
pub open spec fn header_text(number: Seq<char>) -> Seq<char> {
    ("Sink #"@ + number).push('\n')
}

/// The text of a field line.
pub open spec fn field_text(label: Seq<char>, value: Seq<char>) -> Seq<char> {
    (label + value).push('\n')
}

proof fn lemma_empty_rest(st: ParseState)
    ensures
        parse_lines(st, lines(Seq::<char>::empty())) == st,
{
}

/// A lone sink block with its header, name, description and monitor source
/// lines gives exactly that one sink.
pub proof fn lemma_one_block(
    number: Seq<char>,
    name: Seq<char>,
    description: Seq<char>,
    monitor: Seq<char>,
)
    requires
        one_line(number) && no_trailing_blank(number),
        one_line(name) && no_trailing_blank(name) && name.len() > 0,
        one_line(description) && no_trailing_blank(description) && description.len() > 0,
        one_line(monitor) && no_trailing_blank(monitor) && monitor.len() > 0,
    ensures
        pactl_sinks(
            header_text(number) + field_text("Name: "@, name) + field_text(
                "Description: "@,
                description,
            ) + field_text("Monitor Source: "@, monitor),
        ) == seq![SinkView { name: name, description: description, monitor_source: monitor }],
{
    let e = Seq::<char>::empty();
    let h = header_text(number);
    let n = field_text("Name: "@, name);
    let d = field_text("Description: "@, description);
    let m = field_text("Monitor Source: "@, monitor);
    assert(h + n + d + m =~= h + (n + (d + (m + e))));
    let s0 = initial_state();
    lemma_header_step(s0, number);
    let s1 = parse_step(s0, trim("Sink #"@ + number));
    lemma_parse_through(s0, "Sink #"@ + number, n + (d + (m + e)));
    lemma_name_step(s1, name);
    let s2 = parse_step(s1, trim("Name: "@ + name));
    lemma_parse_through(s1, "Name: "@ + name, d + (m + e));
    lemma_description_step(s2, description);
    let s3 = parse_step(s2, trim("Description: "@ + description));
    lemma_parse_through(s2, "Description: "@ + description, m + e);
    lemma_monitor_step(s3, monitor);
    let s4 = parse_step(s3, trim("Monitor Source: "@ + monitor));
    lemma_parse_through(s3, "Monitor Source: "@ + monitor, e);
    lemma_empty_rest(s4);
    assert(s1.sinks == Seq::<SinkView>::empty());
    assert(Seq::<SinkView>::empty().push(
        SinkView { name: name, description: description, monitor_source: monitor },
    ) =~= seq![SinkView { name: name, description: description, monitor_source: monitor }]);
}

/// A block without a description line gives its sink with an empty description.
pub proof fn lemma_block_without_description(number: Seq<char>, name: Seq<char>, monitor: Seq<char>)
    requires
        one_line(number) && no_trailing_blank(number),
        one_line(name) && no_trailing_blank(name) && name.len() > 0,
        one_line(monitor) && no_trailing_blank(monitor) && monitor.len() > 0,
    ensures
        pactl_sinks(
            header_text(number) + field_text("Name: "@, name) + field_text(
                "Monitor Source: "@,
                monitor,
            ),
        ) == seq![SinkView { name: name, description: Seq::empty(), monitor_source: monitor }],
{
    let e = Seq::<char>::empty();
    let h = header_text(number);
    let n = field_text("Name: "@, name);
    let m = field_text("Monitor Source: "@, monitor);
    assert(h + n + m =~= h + (n + (m + e)));
    let s0 = initial_state();
    lemma_header_step(s0, number);
    let s1 = parse_step(s0, trim("Sink #"@ + number));
    lemma_parse_through(s0, "Sink #"@ + number, n + (m + e));
    lemma_name_step(s1, name);
    let s2 = parse_step(s1, trim("Name: "@ + name));
    lemma_parse_through(s1, "Name: "@ + name, m + e);
    lemma_monitor_step(s2, monitor);
    let s3 = parse_step(s2, trim("Monitor Source: "@ + monitor));
    lemma_parse_through(s2, "Monitor Source: "@ + monitor, e);
    lemma_empty_rest(s3);
    assert(s1.sinks == Seq::<SinkView>::empty());
    assert(Seq::<SinkView>::empty().push(
        SinkView { name: name, description: Seq::empty(), monitor_source: monitor },
    ) =~= seq![SinkView { name: name, description: Seq::empty(), monitor_source: monitor }]);
}

/// A block without a monitor source line gives no sink.
pub proof fn lemma_block_without_monitor(number: Seq<char>, name: Seq<char>, description: Seq<char>)
    requires
        one_line(number) && no_trailing_blank(number),
        one_line(name) && no_trailing_blank(name) && name.len() > 0,
        one_line(description) && no_trailing_blank(description) && description.len() > 0,
    ensures
        pactl_sinks(
            header_text(number) + field_text("Name: "@, name) + field_text(
                "Description: "@,
                description,
            ),
        ) == Seq::<SinkView>::empty(),
{
    let e = Seq::<char>::empty();
    let h = header_text(number);
    let n = field_text("Name: "@, name);
    let d = field_text("Description: "@, description);
    assert(h + n + d =~= h + (n + (d + e)));
    let s0 = initial_state();
    lemma_header_step(s0, number);
    let s1 = parse_step(s0, trim("Sink #"@ + number));
    lemma_parse_through(s0, "Sink #"@ + number, n + (d + e));
    lemma_name_step(s1, name);
    let s2 = parse_step(s1, trim("Name: "@ + name));
    lemma_parse_through(s1, "Name: "@ + name, d + e);
    lemma_description_step(s2, description);
    let s3 = parse_step(s2, trim("Description: "@ + description));
    lemma_parse_through(s2, "Description: "@ + description, e);
    lemma_empty_rest(s3);
    assert(s1.sinks == Seq::<SinkView>::empty());
}

/// A block without a name line gives no sink.
pub proof fn lemma_block_without_name(number: Seq<char>, description: Seq<char>, monitor: Seq<char>)
    requires
        one_line(number) && no_trailing_blank(number),
        one_line(description) && no_trailing_blank(description) && description.len() > 0,
        one_line(monitor) && no_trailing_blank(monitor) && monitor.len() > 0,
    ensures
        pactl_sinks(
            header_text(number) + field_text("Description: "@, description) + field_text(
                "Monitor Source: "@,
                monitor,
            ),
        ) == Seq::<SinkView>::empty(),
{
    let e = Seq::<char>::empty();
    let h = header_text(number);
    let d = field_text("Description: "@, description);
    let m = field_text("Monitor Source: "@, monitor);
    assert(h + d + m =~= h + (d + (m + e)));
    let s0 = initial_state();
    lemma_header_step(s0, number);
    let s1 = parse_step(s0, trim("Sink #"@ + number));
    lemma_parse_through(s0, "Sink #"@ + number, d + (m + e));
    lemma_description_step(s1, description);
    let s2 = parse_step(s1, trim("Description: "@ + description));
    lemma_parse_through(s1, "Description: "@ + description, m + e);
    lemma_monitor_step(s2, monitor);
    let s3 = parse_step(s2, trim("Monitor Source: "@ + monitor));
    lemma_parse_through(s2, "Monitor Source: "@ + monitor, e);
    lemma_empty_rest(s3);
    assert(s1.sinks == Seq::<SinkView>::empty());
}

/// A field given twice in a block takes its later value.
pub proof fn lemma_later_name_wins(
    number: Seq<char>,
    first: Seq<char>,
    second: Seq<char>,
    monitor: Seq<char>,
)
    requires
        one_line(number) && no_trailing_blank(number),
        one_line(first) && no_trailing_blank(first) && first.len() > 0,
        one_line(second) && no_trailing_blank(second) && second.len() > 0,
        one_line(monitor) && no_trailing_blank(monitor) && monitor.len() > 0,
    ensures
        pactl_sinks(
            header_text(number) + field_text("Name: "@, first) + field_text("Name: "@, second)
                + field_text("Monitor Source: "@, monitor),
        ) == seq![SinkView { name: second, description: Seq::empty(), monitor_source: monitor }],
{
    let e = Seq::<char>::empty();
    let h = header_text(number);
    let n1 = field_text("Name: "@, first);
    let n2 = field_text("Name: "@, second);
    let m = field_text("Monitor Source: "@, monitor);
    assert(h + n1 + n2 + m =~= h + (n1 + (n2 + (m + e))));
    let s0 = initial_state();
    lemma_header_step(s0, number);
    let s1 = parse_step(s0, trim("Sink #"@ + number));
    lemma_parse_through(s0, "Sink #"@ + number, n1 + (n2 + (m + e)));
    lemma_name_step(s1, first);
    let s2 = parse_step(s1, trim("Name: "@ + first));
    lemma_parse_through(s1, "Name: "@ + first, n2 + (m + e));
    lemma_name_step(s2, second);
    let s3 = parse_step(s2, trim("Name: "@ + second));
    lemma_parse_through(s2, "Name: "@ + second, m + e);
    lemma_monitor_step(s3, monitor);
    let s4 = parse_step(s3, trim("Monitor Source: "@ + monitor));
    lemma_parse_through(s3, "Monitor Source: "@ + monitor, e);
    lemma_empty_rest(s4);
    assert(s1.sinks == Seq::<SinkView>::empty());
    assert(Seq::<SinkView>::empty().push(
        SinkView { name: second, description: Seq::empty(), monitor_source: monitor },
    ) =~= seq![SinkView { name: second, description: Seq::empty(), monitor_source: monitor }]);
}

/// The fields read so far for a sink block.
struct SinkDraft {
    name: Option<String>,
    description: Option<String>,
    monitor_source: Option<String>,
}

spec fn opt_view(o: Option<String>) -> Option<Seq<char>> {
    match o {
        Some(s) => Some(s@),
        None => None,
    }
}

spec fn draft_view(d: Option<SinkDraft>) -> Option<SinkFields> {
    match d {
        Some(f) => Some(
            SinkFields {
                name: opt_view(f.name),
                description: opt_view(f.description),
                monitor_source: opt_view(f.monitor_source),
            },
        ),
        None => None,
    }
}

fn flush_draft(sinks: &mut Vec<PactlSink>, current: Option<SinkDraft>)
    ensures
        sinks_view(final(sinks)@) == flush(sinks_view(old(sinks)@), draft_view(current)),
{
    if let Some(d) = current {
        match (d.name, d.monitor_source) {
            (Some(name), Some(monitor_source)) => {
                let description = match d.description {
                    Some(text) => text,
                    None => String::new(),
                };
                let sink = PactlSink { name, description, monitor_source };
                let ghost before = sinks@;
                sinks.push(sink);
                assert(sinks_view(sinks@) =~= sinks_view(before).push(sink@));
            },
            _ => {},
        }
    }
}

proof fn lemma_lines_unfold(s: Seq<char>, pos: int, nl: int)
    requires
        0 <= pos < s.len(),
        pos <= nl <= s.len(),
        nl == pos + crate::text::newline_offset(s.skip(pos)),
    ensures
        nl == s.len() ==> lines(s.skip(pos)) == seq![s.subrange(pos, nl)],
        nl < s.len() ==> lines(s.skip(pos)) == seq![strip_carriage_return(s.subrange(pos, nl))]
            + lines(s.skip(nl + 1)),
{
    let r = s.skip(pos);
    assert(r.len() > 0);
    if nl == s.len() {
        assert(r =~= s.subrange(pos, nl));
    } else {
        assert(r.take(nl - pos) =~= s.subrange(pos, nl));
        assert(r.skip(nl - pos + 1) =~= s.skip(nl + 1));
    }
}

proof fn lemma_parse_lines_cons(st: ParseState, line: Seq<char>, rest: Seq<Seq<char>>)
    ensures
        parse_lines(st, seq![line] + rest) == parse_lines(parse_step(st, trim(line)), rest),
{
    let ls = seq![line] + rest;
    assert(ls[0] == line);
    assert(ls.drop_first() =~= rest);
}

proof fn lemma_parse_lines_empty(st: ParseState)
    ensures
        parse_lines(st, lines(Seq::<char>::empty())) == st,
{
}

/// The text after a label of `len` characters at the start of `output[a..b]`.
fn label_value(output: &str, a: usize, b: usize, len: usize) -> (res: String)
    requires
        a + len <= b <= output@.len(),
    ensures
        res@ == output@.subrange(a as int, b as int).skip(len as int),
{
    let res = output.substring_char(a + len, b).to_owned();
    assert(res@ =~= output@.subrange(a as int, b as int).skip(len as int));
    res
}

/// Parses the block-formatted output of `pactl list sinks` into sink records.
pub fn parse_pactl_sinks(output: &str) -> (res: Vec<PactlSink>)
    ensures
        sinks_view(res@) == pactl_sinks(output@),
{
    let chars = str_to_chars(output);
    let header = str_to_chars("Sink #");
    let name_p = str_to_chars("Name: ");
    let desc_p = str_to_chars("Description: ");
    let mon_p = str_to_chars("Monitor Source: ");
    let mut sinks: Vec<PactlSink> = Vec::new();
    let mut current: Option<SinkDraft> = None;
    let mut pos: usize = 0;
    assert(chars@.skip(0) =~= chars@);
    assert(sinks_view(sinks@) =~= Seq::<SinkView>::empty());
    while pos < chars.len()
        invariant
            chars@ == output@,
            header@ == sink_header(),
            name_p@ == name_label(),
            desc_p@ == description_label(),
            mon_p@ == monitor_label(),
            pos <= chars.len(),
            parse_lines(
                ParseState { sinks: sinks_view(sinks@), current: draft_view(current) },
                lines(chars@.skip(pos as int)),
            ) == parse_lines(initial_state(), lines(chars@)),
        decreases chars.len() - pos,
    {
        let nl = find_newline(&chars, pos);
        let mut end = nl;
        if nl < chars.len() && nl > pos && chars[nl - 1] == '\r' {
            end = nl - 1;
        }
        let next = if nl < chars.len() {
            nl + 1
        } else {
            nl
        };
        let ghost st = ParseState { sinks: sinks_view(sinks@), current: draft_view(current) };
        let ghost line = chars@.subrange(pos as int, end as int);
        proof {
            lemma_lines_unfold(chars@, pos as int, nl as int);
            if nl < chars.len() {
                assert(strip_carriage_return(chars@.subrange(pos as int, nl as int)) =~= line);
                lemma_parse_lines_cons(st, line, lines(chars@.skip(next as int)));
            } else {
                assert(chars@.skip(next as int) =~= Seq::<char>::empty());
                lemma_parse_lines_empty(parse_step(st, trim(line)));
                lemma_parse_lines_cons(st, line, Seq::empty());
                assert(seq![line] + Seq::<Seq<char>>::empty() =~= seq![line]);
            }
        }
        let (a, b) = trim_bounds(&chars, pos, end);
        if has_prefix(&chars, a, b, &header) {
            flush_draft(&mut sinks, current);
            current = Some(SinkDraft { name: None, description: None, monitor_source: None });
        } else if has_prefix(&chars, a, b, &name_p) {
            let v = label_value(output, a, b, name_p.len());
            current =
            match current {
                Some(d) => Some(
                    SinkDraft {
                        name: Some(v),
                        description: d.description,
                        monitor_source: d.monitor_source,
                    },
                ),
                None => None,
            };
        } else if has_prefix(&chars, a, b, &desc_p) {
            let v = label_value(output, a, b, desc_p.len());
            current =
            match current {
                Some(d) => Some(
                    SinkDraft { name: d.name, description: Some(v), monitor_source: d.monitor_source },
                ),
                None => None,
            };
        } else if has_prefix(&chars, a, b, &mon_p) {
            let v = label_value(output, a, b, mon_p.len());
            current =
            match current {
                Some(d) => Some(
                    SinkDraft { name: d.name, description: d.description, monitor_source: Some(v) },
                ),
                None => None,
            };
        }
        assert(ParseState { sinks: sinks_view(sinks@), current: draft_view(current) } == parse_step(
            st,
            trim(line),
        ));
        pos = next;
    }
    assert(chars@.skip(pos as int) =~= Seq::<char>::empty());
    flush_draft(&mut sinks, current);
    sinks
}

} // verus!
