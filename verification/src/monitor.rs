//! Choosing the PulseAudio/PipeWire monitor source to capture system audio from.
use vstd::prelude::*;

use crate::error::SystemAudioError;
use crate::pactl::{pactl_sinks, parse_pactl_sinks, sinks_view, PactlSink, SinkView};
use crate::text::{contains_chars, contains_run, str_to_chars, trim, trimmed};

verus! {

broadcast use vstd::string::group_string_axioms;

/// What `str::to_lowercase` gives for a string.
pub uninterp spec fn lowercase(s: Seq<char>) -> Seq<char>;

/// What `String::from_utf8_lossy` gives for a byte string.
pub uninterp spec fn utf8_lossy(bytes: Seq<u8>) -> Seq<char>;

/// Calls `str::to_lowercase`. Claimed: the result is `lowercase` of the
/// argument, a function of the argument alone.
#[verifier::external_body]
fn to_lowercase(s: &str) -> (res: String)
    ensures
        res@ == lowercase(s@),
{
    s.to_lowercase()
}

/// Calls `String::from_utf8_lossy`. Claimed: the result is `utf8_lossy` of the
/// bytes, and on valid UTF-8 it is their decoding. What replaces invalid
/// sequences is left unsaid.
#[verifier::external_body]
fn decode_utf8_lossy(bytes: &[u8]) -> (res: String)
    ensures
        res@ == utf8_lossy(bytes@),
        vstd::utf8::valid_utf8(bytes@) ==> res@ == vstd::utf8::decode_utf8(bytes@),
{
    String::from_utf8_lossy(bytes).into_owned()
}

/// The first index, from `i` on, of a sink of which `p` holds.
pub open spec fn first_index(s: Seq<SinkView>, p: spec_fn(SinkView) -> bool, i: int) -> Option<
    int,
>
    decreases s.len() - i,
{
    if 0 <= i < s.len() {
        if p(s[i]) {
            Some(i)
        } else {
            first_index(s, p, i + 1)
        }
    } else {
        None
    }
}

/// A found index is in range, at or after `i`, and the predicate holds there.
pub proof fn lemma_first_index_found(s: Seq<SinkView>, p: spec_fn(SinkView) -> bool, i: int)
    ensures
        first_index(s, p, i) matches Some(j) ==> i <= j < s.len() && p(s[j]) && forall|k: int|
            i <= k < j ==> !p(#[trigger] s[k]),
    decreases s.len() - i,
{
    if 0 <= i < s.len() && !p(s[i]) {
        lemma_first_index_found(s, p, i + 1);
    }
}

/// A predicate that holds somewhere from `i` on is found.
pub proof fn lemma_first_index_exists(s: Seq<SinkView>, p: spec_fn(SinkView) -> bool, i: int, j: int)
    requires
        0 <= i <= j < s.len(),
        p(s[j]),
    ensures
        first_index(s, p, i) is Some,
    decreases j - i,
{
    if !p(s[i]) {
        lemma_first_index_exists(s, p, i + 1, j);
    }
}

/// A monitor source is chosen exactly where there is a sink, and it is one of
/// the sinks': resolving fails only where `pactl` listed no sink.
pub proof fn lemma_choice_exists_iff_sinks(
    sinks: Seq<SinkView>,
    default_sink: Seq<char>,
    requested: Option<Seq<char>>,
)
    ensures
        chosen_sink(sinks, default_sink, requested) is Some <==> sinks.len() > 0,
        chosen_sink(sinks, default_sink, requested) matches Some(i) ==> 0 <= i < sinks.len(),
{
    if let Some(n) = requested {
        lemma_first_index_found(sinks, named(n), 0);
        lemma_first_index_found(sinks, describing(lowercase(n)), 0);
    }
    lemma_first_index_found(sinks, named(default_sink), 0);
}

/// A sink named exactly as requested wins: the first such sink is chosen,
/// whatever the default sink and the descriptions.
pub proof fn lemma_exact_name_wins(
    sinks: Seq<SinkView>,
    default_sink: Seq<char>,
    name: Seq<char>,
    j: int,
)
    requires
        0 <= j < sinks.len(),
        sinks[j].name == name,
    ensures
        chosen_sink(sinks, default_sink, Some(name)) matches Some(i) && sinks[i].name == name
            && i <= j && forall|k: int| 0 <= k < i ==> (#[trigger] sinks[k]).name != name,
{
    lemma_first_index_exists(sinks, named(name), 0, j);
    lemma_first_index_found(sinks, named(name), 0);
    let i = first_index(sinks, named(name), 0)->0;
    assert forall|k: int| 0 <= k < i implies (#[trigger] sinks[k]).name != name by {
        assert(!named(name)(sinks[k]));
    }
    if i > j {
        assert(!named(name)(sinks[j]));
    }
}

/// With no sink requested, the first sink named as the default sink is chosen
/// where there is one.
pub proof fn lemma_default_sink_used(sinks: Seq<SinkView>, default_sink: Seq<char>, j: int)
    requires
        0 <= j < sinks.len(),
        sinks[j].name == default_sink,
    ensures
        chosen_sink(sinks, default_sink, None) matches Some(i) && sinks[i].name == default_sink
            && i <= j && forall|k: int| 0 <= k < i ==> (#[trigger] sinks[k]).name != default_sink,
{
    lemma_first_index_exists(sinks, named(default_sink), 0, j);
    lemma_first_index_found(sinks, named(default_sink), 0);
    let i = first_index(sinks, named(default_sink), 0)->0;
    assert forall|k: int| 0 <= k < i implies (#[trigger] sinks[k]).name != default_sink by {
        assert(!named(default_sink)(sinks[k]));
    }
    if i > j {
        assert(!named(default_sink)(sinks[j]));
    }
}

/// Holds of a sink named exactly `name`.
pub open spec fn named(name: Seq<char>) -> spec_fn(SinkView) -> bool {
    |s: SinkView| s.name == name
}

/// Holds of a sink whose lower-cased description contains `needle`.
pub open spec fn describing(needle: Seq<char>) -> spec_fn(SinkView) -> bool {
    |s: SinkView| contains_run(lowercase(s.description), needle)
}

/// The sink that a requested name picks: the first named exactly so, else the
/// first whose description contains it, both compared without regard to case for
/// the description.
pub open spec fn requested_sink(sinks: Seq<SinkView>, requested: Option<Seq<char>>) -> Option<int> {
    match requested {
        None => None,
        Some(n) => match first_index(sinks, named(n), 0) {
            Some(i) => Some(i),
            None => first_index(sinks, describing(lowercase(n)), 0),
        },
    }
}

/// The sink whose monitor source is captured: none where there is no sink; else
/// the one the request picks; else the first named as the default sink; else the
/// first sink.
pub open spec fn chosen_sink(
    sinks: Seq<SinkView>,
    default_sink: Seq<char>,
    requested: Option<Seq<char>>,
) -> Option<int> {
    if sinks.len() == 0 {
        None
    } else {
        match requested_sink(sinks, requested) {
            Some(i) => Some(i),
            None => match first_index(sinks, named(default_sink), 0) {
                Some(i) => Some(i),
                None => Some(0),
            },
        }
    }
}

/// A request as a character sequence.
pub open spec fn request_view(sink_name: Option<&str>) -> Option<Seq<char>> {
    match sink_name {
        Some(n) => Some(n@),
        None => None,
    }
}

/// What choosing the monitor source among `sinks` gives.
pub open spec fn monitor_choice(
    sinks: Seq<SinkView>,
    default_sink: Seq<char>,
    requested: Option<Seq<char>>,
    res: Result<String, SystemAudioError>,
) -> bool {
    match chosen_sink(sinks, default_sink, requested) {
        None => res == Err::<String, SystemAudioError>(SystemAudioError::NoSinks),
        Some(i) => res is Ok && res->Ok_0@ == sinks[i].monitor_source,
    }
}

/// An index as an optional integer.
pub open spec fn index_view(o: Option<usize>) -> Option<int> {
    match o {
        Some(i) => Some(i as int),
        None => None,
    }
}

/// The first sink named exactly `name`.
fn find_named(sinks: &Vec<PactlSink>, name: &str) -> (res: Option<usize>)
    ensures
        index_view(res) == first_index(sinks_view(sinks@), named(name@), 0),
        res matches Some(i) ==> i < sinks.len(),
{
    let target = name.to_owned();
    let ghost v = sinks_view(sinks@);
    let mut i: usize = 0;
    while i < sinks.len()
        invariant
            v == sinks_view(sinks@),
            target@ == name@,
            i <= sinks.len(),
            first_index(v, named(name@), 0) == first_index(v, named(name@), i as int),
        decreases sinks.len() - i,
    {
        if sinks[i].name == target {
            return Some(i);
        }
        i = i + 1;
    }
    None
}

/// The first sink whose lower-cased description contains `needle`.
fn find_describing(sinks: &Vec<PactlSink>, needle: &Vec<char>) -> (res: Option<usize>)
    ensures
        index_view(res) == first_index(sinks_view(sinks@), describing(needle@), 0),
        res matches Some(i) ==> i < sinks.len(),
{
    let ghost v = sinks_view(sinks@);
    let mut i: usize = 0;
    while i < sinks.len()
        invariant
            v == sinks_view(sinks@),
            i <= sinks.len(),
            first_index(v, describing(needle@), 0) == first_index(
                v,
                describing(needle@),
                i as int,
            ),
        decreases sinks.len() - i,
    {
        let lowered = to_lowercase(sinks[i].description.as_str());
        let hay = str_to_chars(lowered.as_str());
        if contains_chars(&hay, needle) {
            return Some(i);
        }
        i = i + 1;
    }
    None
}

/// Which rule picked the sink whose monitor source is captured.
#[derive(PartialEq, Eq, Structural, Clone, Copy)]
pub enum MonitorRule {
    /// A sink named exactly as requested.
    ExactName,
    /// A sink whose description contains the request, without regard to case.
    DescriptionMatch,
    /// The default sink.
    DefaultSink,
    /// The first sink listed.
    FirstSink,
}

/// The rule by which `chosen_sink` picks its sink.
pub open spec fn chosen_rule(
    sinks: Seq<SinkView>,
    default_sink: Seq<char>,
    requested: Option<Seq<char>>,
) -> Option<MonitorRule> {
    let exact = match requested {
        Some(n) => first_index(sinks, named(n), 0) is Some,
        None => false,
    };
    let described = match requested {
        Some(n) => first_index(sinks, describing(lowercase(n)), 0) is Some,
        None => false,
    };
    if sinks.len() == 0 {
        None
    } else if exact {
        Some(MonitorRule::ExactName)
    } else if described {
        Some(MonitorRule::DescriptionMatch)
    } else if first_index(sinks, named(default_sink), 0) is Some {
        Some(MonitorRule::DefaultSink)
    } else {
        Some(MonitorRule::FirstSink)
    }
}

/// The sink chosen to capture from: its monitor source and description, and the
/// rule that picked it.
pub struct MonitorChoice {
    pub monitor_source: String,
    pub description: String,
    pub rule: MonitorRule,
}

/// What choosing the sink among `sinks` gives.
pub open spec fn monitor_pick(
    sinks: Seq<SinkView>,
    default_sink: Seq<char>,
    requested: Option<Seq<char>>,
    res: Result<MonitorChoice, SystemAudioError>,
) -> bool {
    match chosen_sink(sinks, default_sink, requested) {
        None => res == Err::<MonitorChoice, SystemAudioError>(SystemAudioError::NoSinks),
        Some(i) => res matches Ok(c) && c.monitor_source@ == sinks[i].monitor_source
            && c.description@ == sinks[i].description && chosen_rule(
            sinks,
            default_sink,
            requested,
        ) == Some(c.rule),
    }
}

/// A sink named exactly as requested is found by that rule: whatever the
/// default sink, the choice is reported as `ExactName` and is the first sink of
/// that name.
pub proof fn lemma_exact_name_reported(
    sinks: Seq<SinkView>,
    default_sink: Seq<char>,
    name: Seq<char>,
    j: int,
    res: Result<MonitorChoice, SystemAudioError>,
)
    requires
        0 <= j < sinks.len(),
        sinks[j].name == name,
        monitor_pick(sinks, default_sink, Some(name), res),
    ensures
        res matches Ok(c) && c.rule == MonitorRule::ExactName && exists|i: int|
            0 <= i <= j && (#[trigger] sinks[i]).name == name && c.monitor_source@
                == sinks[i].monitor_source && c.description@ == sinks[i].description && forall|
                k: int,
            | 0 <= k < i ==> (#[trigger] sinks[k]).name != name,
{
    lemma_exact_name_wins(sinks, default_sink, name, j);
    lemma_choice_exists_iff_sinks(sinks, default_sink, Some(name));
    lemma_first_index_exists(sinks, named(name), 0, j);
    let i = chosen_sink(sinks, default_sink, Some(name))->0;
    assert(sinks[i].name == name);
}

/// The same for the monitor source alone.
pub proof fn lemma_exact_name_monitor(
    sinks: Seq<SinkView>,
    default_sink: Seq<char>,
    name: Seq<char>,
    j: int,
    res: Result<String, SystemAudioError>,
)
    requires
        0 <= j < sinks.len(),
        sinks[j].name == name,
        monitor_choice(sinks, default_sink, Some(name), res),
    ensures
        res matches Ok(m) && exists|i: int|
            0 <= i <= j && (#[trigger] sinks[i]).name == name && m@ == sinks[i].monitor_source
                && forall|k: int| 0 <= k < i ==> (#[trigger] sinks[k]).name != name,
{
    lemma_exact_name_wins(sinks, default_sink, name, j);
    lemma_choice_exists_iff_sinks(sinks, default_sink, Some(name));
    let i = chosen_sink(sinks, default_sink, Some(name))->0;
    assert(sinks[i].name == name);
}

proof fn lemma_no_sink_named(sinks: Seq<SinkView>, name: Seq<char>)
    requires
        forall|k: int| 0 <= k < sinks.len() ==> (#[trigger] sinks[k]).name != name,
    ensures
        first_index(sinks, named(name), 0) is None,
{
    lemma_first_index_found(sinks, named(name), 0);
    if let Some(i) = first_index(sinks, named(name), 0) {
        assert(named(name)(sinks[i]));
        assert(sinks[i].name != name);
    }
}

proof fn lemma_description_choice(
    sinks: Seq<SinkView>,
    default_sink: Seq<char>,
    name: Seq<char>,
    j: int,
)
    requires
        forall|k: int| 0 <= k < sinks.len() ==> (#[trigger] sinks[k]).name != name,
        0 <= j < sinks.len(),
        contains_run(lowercase(sinks[j].description), lowercase(name)),
    ensures
        chosen_sink(sinks, default_sink, Some(name)) matches Some(i) && 0 <= i <= j
            && contains_run(lowercase(sinks[i].description), lowercase(name)) && (forall|k: int|
            0 <= k < i ==> !contains_run(lowercase((#[trigger] sinks[k]).description), lowercase(name)))
            && chosen_rule(sinks, default_sink, Some(name)) == Some(MonitorRule::DescriptionMatch),
{
    let p = describing(lowercase(name));
    lemma_no_sink_named(sinks, name);
    assert(p(sinks[j]));
    lemma_first_index_exists(sinks, p, 0, j);
    lemma_first_index_found(sinks, p, 0);
    let i = first_index(sinks, p, 0)->0;
    assert(p(sinks[i]));
    assert forall|k: int| 0 <= k < i implies !contains_run(
        lowercase((#[trigger] sinks[k]).description),
        lowercase(name),
    ) by {
        assert(!p(sinks[k]));
    }
    if i > j {
        assert(!p(sinks[j]));
    }
}

/// With no sink named as requested, a description that contains the request
/// (compared in lower case) decides: the choice is reported as
/// `DescriptionMatch`, and it is the first sink whose description contains it.
pub proof fn lemma_description_match_first(
    sinks: Seq<SinkView>,
    default_sink: Seq<char>,
    name: Seq<char>,
    j: int,
    res: Result<MonitorChoice, SystemAudioError>,
)
    requires
        forall|k: int| 0 <= k < sinks.len() ==> (#[trigger] sinks[k]).name != name,
        0 <= j < sinks.len(),
        contains_run(lowercase(sinks[j].description), lowercase(name)),
        monitor_pick(sinks, default_sink, Some(name), res),
    ensures
        res matches Ok(c) && c.rule == MonitorRule::DescriptionMatch && exists|i: int|
            0 <= i <= j && contains_run(lowercase((#[trigger] sinks[i]).description), lowercase(name))
                && c.monitor_source@ == sinks[i].monitor_source && c.description@
                == sinks[i].description && forall|k: int|
                0 <= k < i ==> !contains_run(
                    lowercase((#[trigger] sinks[k]).description),
                    lowercase(name),
                ),
{
    lemma_description_choice(sinks, default_sink, name, j);
    let i = chosen_sink(sinks, default_sink, Some(name))->0;
    assert(contains_run(lowercase(sinks[i].description), lowercase(name)));
}

/// The same for the monitor source alone.
pub proof fn lemma_description_match_monitor(
    sinks: Seq<SinkView>,
    default_sink: Seq<char>,
    name: Seq<char>,
    j: int,
    res: Result<String, SystemAudioError>,
)
    requires
        forall|k: int| 0 <= k < sinks.len() ==> (#[trigger] sinks[k]).name != name,
        0 <= j < sinks.len(),
        contains_run(lowercase(sinks[j].description), lowercase(name)),
        monitor_choice(sinks, default_sink, Some(name), res),
    ensures
        res matches Ok(m) && exists|i: int|
            0 <= i <= j && contains_run(lowercase((#[trigger] sinks[i]).description), lowercase(name))
                && m@ == sinks[i].monitor_source && forall|k: int|
                0 <= k < i ==> !contains_run(
                    lowercase((#[trigger] sinks[k]).description),
                    lowercase(name),
                ),
{
    lemma_description_choice(sinks, default_sink, name, j);
    let i = chosen_sink(sinks, default_sink, Some(name))->0;
    assert(contains_run(lowercase(sinks[i].description), lowercase(name)));
}

/// Resolving fails exactly where there is no sink, and then with `NoSinks`.
pub proof fn lemma_pick_fails_iff_no_sinks(
    sinks: Seq<SinkView>,
    default_sink: Seq<char>,
    requested: Option<Seq<char>>,
    res: Result<MonitorChoice, SystemAudioError>,
)
    requires
        monitor_pick(sinks, default_sink, requested, res),
    ensures
        sinks.len() == 0 ==> res == Err::<MonitorChoice, SystemAudioError>(
            SystemAudioError::NoSinks,
        ),
        sinks.len() > 0 ==> res is Ok,
{
    lemma_choice_exists_iff_sinks(sinks, default_sink, requested);
}

/// Where no sink matches a request (none was made, or none is named so and no
/// description contains it), the first sink named as the default sink is
/// chosen, reported as `DefaultSink`.
pub proof fn lemma_default_sink_reported(
    sinks: Seq<SinkView>,
    default_sink: Seq<char>,
    requested: Option<Seq<char>>,
    j: int,
    res: Result<MonitorChoice, SystemAudioError>,
)
    requires
        requested matches Some(n) ==> (forall|k: int|
            0 <= k < sinks.len() ==> (#[trigger] sinks[k]).name != n && !contains_run(
                lowercase(sinks[k].description),
                lowercase(n),
            )),
        0 <= j < sinks.len(),
        sinks[j].name == default_sink,
        monitor_pick(sinks, default_sink, requested, res),
    ensures
        res matches Ok(c) && c.rule == MonitorRule::DefaultSink && exists|i: int|
            0 <= i <= j && (#[trigger] sinks[i]).name == default_sink && c.monitor_source@
                == sinks[i].monitor_source && forall|k: int|
                0 <= k < i ==> (#[trigger] sinks[k]).name != default_sink,
{
    if let Some(n) = requested {
        lemma_no_sink_named(sinks, n);
        let p = describing(lowercase(n));
        lemma_first_index_found(sinks, p, 0);
        if let Some(i) = first_index(sinks, p, 0) {
            assert(p(sinks[i]));
        }
    }
    let q = named(default_sink);
    assert(q(sinks[j]));
    lemma_first_index_exists(sinks, q, 0, j);
    lemma_first_index_found(sinks, q, 0);
    let i = first_index(sinks, q, 0)->0;
    assert(q(sinks[i]));
    assert forall|k: int| 0 <= k < i implies (#[trigger] sinks[k]).name != default_sink by {
        assert(!q(sinks[k]));
    }
    if i > j {
        assert(!q(sinks[j]));
    }
}

/// Where nothing matches the request and no sink is named as the default sink,
/// the first sink is chosen, reported as `FirstSink`.
pub proof fn lemma_first_sink_reported(
    sinks: Seq<SinkView>,
    default_sink: Seq<char>,
    requested: Option<Seq<char>>,
    res: Result<MonitorChoice, SystemAudioError>,
)
    requires
        sinks.len() > 0,
        forall|k: int|
            0 <= k < sinks.len() ==> (#[trigger] sinks[k]).name != default_sink && (
            requested matches Some(n) ==> sinks[k].name != n && !contains_run(
                lowercase(sinks[k].description),
                lowercase(n),
            )),
        monitor_pick(sinks, default_sink, requested, res),
    ensures
        res matches Ok(c) && c.rule == MonitorRule::FirstSink && c.monitor_source@
            == sinks[0].monitor_source && c.description@ == sinks[0].description,
{
    if let Some(n) = requested {
        lemma_no_sink_named(sinks, n);
        let p = describing(lowercase(n));
        lemma_first_index_found(sinks, p, 0);
        if let Some(i) = first_index(sinks, p, 0) {
            assert(p(sinks[i]));
        }
    }
    lemma_no_sink_named(sinks, default_sink);
}

fn pick(sinks: &Vec<PactlSink>, i: usize, rule: MonitorRule) -> (res: MonitorChoice)
    requires
        i < sinks.len(),
    ensures
        res.monitor_source@ == sinks@[i as int].monitor_source@,
        res.description@ == sinks@[i as int].description@,
        res.rule == rule,
{
    MonitorChoice {
        monitor_source: sinks[i].monitor_source.clone(),
        description: sinks[i].description.clone(),
        rule,
    }
}

/// Chooses the sink to capture from among `sinks`: the one the request names
/// (exactly, else by a case-insensitive match on its description), else the
/// default sink, else the first sink; an error where there is no sink. Says which
/// of these rules picked it.
pub fn choose_monitor(
    sinks: &Vec<PactlSink>,
    default_sink: &str,
    sink_name: Option<&str>,
) -> (res: Result<MonitorChoice, SystemAudioError>)
    ensures
        monitor_pick(sinks_view(sinks@), default_sink@, request_view(sink_name), res),
{
    if sinks.len() == 0 {
        return Err(SystemAudioError::NoSinks);
    }
    if let Some(name) = sink_name {
        if let Some(i) = find_named(sinks, name) {
            return Ok(pick(sinks, i, MonitorRule::ExactName));
        }
        let lowered = to_lowercase(name);
        let needle = str_to_chars(lowered.as_str());
        if let Some(i) = find_describing(sinks, &needle) {
            return Ok(pick(sinks, i, MonitorRule::DescriptionMatch));
        }
    }
    if let Some(i) = find_named(sinks, default_sink) {
        return Ok(pick(sinks, i, MonitorRule::DefaultSink));
    }
    Ok(pick(sinks, 0, MonitorRule::FirstSink))
}

/// Chooses the monitor source to capture among `sinks`: the one of the sink the
/// request names (exactly, else by a case-insensitive match on its description),
/// else that of the default sink, else that of the first sink; an error where
/// there is no sink.
pub fn choose_monitor_source(
    sinks: &Vec<PactlSink>,
    default_sink: &str,
    sink_name: Option<&str>,
) -> (res: Result<String, SystemAudioError>)
    ensures
        monitor_choice(sinks_view(sinks@), default_sink@, request_view(sink_name), res),
{
    match choose_monitor(sinks, default_sink, sink_name) {
        Ok(choice) => Ok(choice.monitor_source),
        Err(e) => Err(e),
    }
}

/// Chooses the sink to capture from, from what `pactl get-default-sink` and
/// `pactl list sinks` printed, for the requested sink name or, with `None`, the
/// default sink; says which rule picked it.
pub fn resolve_monitor_from_output(
    default_sink_stdout: &[u8],
    sinks_stdout: &[u8],
    sink_name: Option<&str>,
) -> (res: Result<MonitorChoice, SystemAudioError>)
    ensures
        monitor_pick(
            pactl_sinks(utf8_lossy(sinks_stdout@)),
            trim(utf8_lossy(default_sink_stdout@)),
            request_view(sink_name),
            res,
        ),
        vstd::utf8::valid_utf8(sinks_stdout@) ==> utf8_lossy(sinks_stdout@)
            == vstd::utf8::decode_utf8(sinks_stdout@),
        vstd::utf8::valid_utf8(default_sink_stdout@) ==> utf8_lossy(default_sink_stdout@)
            == vstd::utf8::decode_utf8(default_sink_stdout@),
{
    let default_text = decode_utf8_lossy(default_sink_stdout);
    let default_sink = trimmed(default_text.as_str());
    let sinks_text = decode_utf8_lossy(sinks_stdout);
    let sinks = parse_pactl_sinks(sinks_text.as_str());
    choose_monitor(&sinks, default_sink.as_str(), sink_name)
}

/// Resolves the monitor source from what `pactl get-default-sink` and
/// `pactl list sinks` printed, for the requested sink name or, with `None`, the
/// default sink.
pub fn resolve_monitor_source_from_output(
    default_sink_stdout: &[u8],
    sinks_stdout: &[u8],
    sink_name: Option<&str>,
) -> (res: Result<String, SystemAudioError>)
    ensures
        monitor_choice(
            pactl_sinks(utf8_lossy(sinks_stdout@)),
            trim(utf8_lossy(default_sink_stdout@)),
            request_view(sink_name),
            res,
        ),
        vstd::utf8::valid_utf8(sinks_stdout@) ==> utf8_lossy(sinks_stdout@)
            == vstd::utf8::decode_utf8(sinks_stdout@),
        vstd::utf8::valid_utf8(default_sink_stdout@) ==> utf8_lossy(default_sink_stdout@)
            == vstd::utf8::decode_utf8(default_sink_stdout@),
{
    match resolve_monitor_from_output(default_sink_stdout, sinks_stdout, sink_name) {
        Ok(choice) => Ok(choice.monitor_source),
        Err(e) => Err(e),
    }
}

} // verus!
