//! Shared helpers around detection: selection-key display, pattern list
//! checks, scalar display text, event-key constants, record projection by
//! key, and config-path checks.
use vstd::prelude::*;

use crate::aliases::alias_path;
use crate::aliases::split_dots;
use crate::aliases::AliasDirectory;
use crate::patterns::any_matches;
use crate::patterns::CompiledPattern;
use crate::projector::default_prefix;
use crate::projector::walk_strict;
use crate::record::scalar_string;
use crate::record::NodeView;
use crate::record::RecordNode;
use crate::text::chars_of;
use crate::text::contains_seq;
use crate::text::string_of;

verus! {

/// The rule-file breadcrumb for a selection key list.
pub open spec fn selection_key_text(keys: Seq<Seq<char>>) -> Seq<char>
    decreases keys.len(),
{
    if keys.len() == 0 {
        "detection -> selection"@
    } else {
        selection_key_text(keys.drop_last()) + " -> "@ + keys.last()
    }
}

/// Fold a key list into the `detection -> selection -> ...` breadcrumb.
pub fn concat_selection_key(key_list: &Vec<String>) -> (r: String)
    ensures
        r@ == selection_key_text(key_list.deep_view()),
{
    let ghost dv = key_list.deep_view();
    let s = String::new();
    let mut s = s.concat("detection -> selection");
    let mut i: usize = 0;
    proof {
        assert(dv.take(0) =~= Seq::<Seq<char>>::empty());
    }
    while i < key_list.len()
        invariant
            i <= key_list@.len(),
            dv == key_list.deep_view(),
            dv.len() == key_list@.len(),
            s@ == selection_key_text(dv.take(i as int)),
        decreases key_list@.len() - i,
    {
        let s2 = s.concat(" -> ");
        s = s2.concat(key_list[i].as_str());
        i = i + 1;
        proof {
            assert(dv.take(i as int).drop_last() =~= dv.take(i - 1));
            assert(dv.take(i as int).last() == dv[i - 1]);
        }
    }
    proof {
        assert(dv.take(i as int) =~= dv);
    }
    s
}

/// Whether any pattern of the detect list matches the string.
pub fn check_regex(string: &str, regex_list: &Vec<CompiledPattern>) -> (r: bool)
    ensures
        r == any_matches(regex_list@, string@),
{
    let mut i: usize = 0;
    while i < regex_list.len()
        invariant
            i <= regex_list@.len(),
            forall|k: int|
                0 <= k < i ==> !crate::patterns::pattern_matches(
                    #[trigger] regex_list@[k]@,
                    string@,
                ),
        decreases regex_list@.len() - i,
    {
        if regex_list[i].is_match(string) {
            return true;
        }
        i = i + 1;
    }
    false
}

/// Whether any allow-list pattern matches the target.
pub fn check_allowlist(target: &str, regexes: &Vec<CompiledPattern>) -> (r: bool)
    ensures
        r == any_matches(regexes@, target@),
{
    let mut i: usize = 0;
    while i < regexes.len()
        invariant
            i <= regexes@.len(),
            forall|k: int|
                0 <= k < i ==> !crate::patterns::pattern_matches(
                    #[trigger] regexes@[k]@,
                    target@,
                ),
        decreases regexes@.len() - i,
    {
        if regexes[i].is_match(target) {
            return true;
        }
        i = i + 1;
    }
    false
}

/// The scalar display text of a node: nothing for arrays and objects.
pub fn value_to_string(value: &RecordNode) -> (r: Option<String>)
    ensures
        match r {
            Option::Some(s) => scalar_string(value@) == Option::Some(s@),
            Option::None => scalar_string(value@) is None,
        },
{
    match crate::record::scalar_chars(value) {
        Option::Some(v) => Option::Some(string_of(&v)),
        Option::None => Option::None,
    }
}

/// The display text of a projected node: arrays serialize, objects and
/// nulls have none.
pub fn get_serde_number_to_string(value: &RecordNode) -> (r: Option<String>)
    ensures
        match r {
            Option::Some(s) => crate::record::projected_string(value@) == Option::Some(s@),
            Option::None => crate::record::projected_string(value@) is None,
        },
{
    match crate::record::projected_chars(value) {
        Option::Some(v) => Option::Some(string_of(&v)),
        Option::None => Option::None,
    }
}

/// Whether the event id is among the targeted ones; an empty target set
/// means no filtering.
pub fn is_target_event_id(s: &str, target_ids: &Vec<String>) -> (r: bool)
    ensures
        r == (target_ids.deep_view().len() == 0 || exists|i: int|
            0 <= i < target_ids.deep_view().len() && target_ids.deep_view()[i] == s@),
{
    if target_ids.len() == 0 {
        return true;
    }
    let sc = chars_of(s);
    let mut i: usize = 0;
    while i < target_ids.len()
        invariant
            i <= target_ids@.len(),
            sc@ == s@,
            forall|k: int| 0 <= k < i ==> target_ids.deep_view()[k] != s@,
        decreases target_ids@.len() - i,
    {
        let tc = chars_of(target_ids[i].as_str());
        if crate::text::chars_eq(&tc, &sc) {
            proof {
                assert(target_ids.deep_view()[i as int] == target_ids@[i as int]@);
            }
            return true;
        }
        i = i + 1;
    }
    false
}

/// The canonical dotted key of the event id inside a record.
pub fn get_event_id_key() -> (r: String)
    ensures
        r@ == "Event.System.EventID"@,
{
    let s = String::new();
    s.concat("Event.System.EventID")
}

/// The canonical dotted key of the event timestamp inside a record.
pub fn get_event_time() -> (r: String)
    ensures
        r@ == "Event.System.TimeCreated_attributes.SystemTime"@,
{
    let s = String::new();
    s.concat("Event.System.TimeCreated_attributes.SystemTime")
}

/// What projecting `key` out of a record yields: the alias path where one
/// is registered; otherwise the key itself where it is already dotted, or
/// the default pattern; then a strict walk.
pub open spec fn event_value_of(
    k: Seq<char>,
    rv: NodeView,
    al: Seq<(Seq<char>, Seq<char>)>,
) -> Option<NodeView> {
    if k.len() == 0 {
        Option::None
    } else {
        let path = match alias_path(al, k) {
            Option::Some(p) => p,
            Option::None => if !contains_seq(k, seq!['.']) {
                default_prefix() + k
            } else {
                k
            },
        };
        walk_strict(rv, split_dots(path))
    }
}

/// Project a field out of a record by alias or dotted key.
pub fn get_event_value(key: &String, event_value: &RecordNode, aliases: &AliasDirectory) -> (r:
    Option<RecordNode>)
    ensures
        match r {
            Option::Some(n) => event_value_of(key@, event_value@, aliases@) == Option::Some(
                n@,
            ),
            Option::None => event_value_of(key@, event_value@, aliases@) is None,
        },
{
    let kc = chars_of(key.as_str());
    if kc.len() == 0 {
        return Option::None;
    }
    let path_chars: Vec<char> = match aliases.get_event_key(&kc) {
        Option::Some(p) => chars_of(p.as_str()),
        Option::None => {
            let mut dot: Vec<char> = Vec::new();
            dot.push('.');
            proof {
                assert(dot@ =~= seq!['.']);
            }
            if !crate::text::contains_pattern(&kc, &dot) {
                let mut pc = chars_of("Event.EventData.");
                proof {
                    reveal_strlit("Event.EventData.");
                    assert(pc@ =~= default_prefix());
                }
                let mut tc = crate::text::copy_range(&kc, 0, kc.len());
                pc.append(&mut tc);
                proof {
                    assert(kc@.subrange(0, kc@.len() as int) =~= kc@);
                    assert(pc@ =~= default_prefix() + key@);
                }
                pc
            } else {
                kc
            }
        },
    };
    let segs = crate::aliases::split_dots_chars(&path_chars);
    proof {
        assert(segs.deep_view().skip(0) =~= segs.deep_view());
    }
    crate::projector::walk_strict_from(event_value, &segs, 0)
}

/// Relies on `num_cpus::get`: the number of available logical CPUs,
/// documented to be at least one.
#[verifier::external_body]
fn cpu_count() -> (r: usize)
    ensures
        r >= 1,
{
    num_cpus::get()
}

/// How many worker threads to run: the configured count, or one per CPU.
pub fn get_thread_num(configured: &Option<usize>) -> (r: usize)
    ensures
        match configured {
            Option::Some(n) => r == n,
            Option::None => r >= 1,
        },
{
    let cpu_num = cpu_count();
    match configured {
        Option::Some(n) => *n,
        Option::None => cpu_num,
    }
}

#[verifier::external_type_specification]
#[verifier::external_body]
pub struct ExColor(termcolor::Color);

/// The color to write with: none at all when color output is off.
pub fn get_writable_color(color: Option<termcolor::Color>, no_color: bool) -> (r: Option<
    termcolor::Color,
>)
    ensures
        no_color ==> r is None,
        !no_color ==> r == color,
{
    if no_color {
        Option::None
    } else {
        color
    }
}

/// One character as `char::to_uppercase` maps the ASCII letters.
pub open spec fn upper_char(c: char) -> char {
    if c == 'a' {
        'A'
    } else if c == 'b' {
        'B'
    } else if c == 'c' {
        'C'
    } else if c == 'd' {
        'D'
    } else if c == 'e' {
        'E'
    } else if c == 'f' {
        'F'
    } else if c == 'g' {
        'G'
    } else if c == 'h' {
        'H'
    } else if c == 'i' {
        'I'
    } else if c == 'j' {
        'J'
    } else if c == 'k' {
        'K'
    } else if c == 'l' {
        'L'
    } else if c == 'm' {
        'M'
    } else if c == 'n' {
        'N'
    } else if c == 'o' {
        'O'
    } else if c == 'p' {
        'P'
    } else if c == 'q' {
        'Q'
    } else if c == 'r' {
        'R'
    } else if c == 's' {
        'S'
    } else if c == 't' {
        'T'
    } else if c == 'u' {
        'U'
    } else if c == 'v' {
        'V'
    } else if c == 'w' {
        'W'
    } else if c == 'x' {
        'X'
    } else if c == 'y' {
        'Y'
    } else if c == 'z' {
        'Z'
    } else {
        c
    }
}

/// The string with its first character title-cased: an ASCII first
/// character is upper-cased, any other first character leaves the string
/// unchanged.
pub open spec fn titlecased(s: Seq<char>) -> Seq<char> {
    if s.len() == 0 {
        Seq::empty()
    } else if s[0] <= '\u{7f}' {
        seq![upper_char(s[0])] + s.skip(1)
    } else {
        s
    }
}

/// Upper-case the first character where it is ASCII.
pub fn make_ascii_titlecase(s: &str) -> (r: String)
    ensures
        r@ == titlecased(s@),
{
    let v = chars_of(s);
    if v.len() == 0 {
        return String::new();
    }
    let c = v[0];
    if !(c <= '\u{7f}') {
        return string_of(&v);
    }
    let uc: char = if c == 'a' {
        'A'
    } else if c == 'b' {
        'B'
    } else if c == 'c' {
        'C'
    } else if c == 'd' {
        'D'
    } else if c == 'e' {
        'E'
    } else if c == 'f' {
        'F'
    } else if c == 'g' {
        'G'
    } else if c == 'h' {
        'H'
    } else if c == 'i' {
        'I'
    } else if c == 'j' {
        'J'
    } else if c == 'k' {
        'K'
    } else if c == 'l' {
        'L'
    } else if c == 'm' {
        'M'
    } else if c == 'n' {
        'N'
    } else if c == 'o' {
        'O'
    } else if c == 'p' {
        'P'
    } else if c == 'q' {
        'Q'
    } else if c == 'r' {
        'R'
    } else if c == 's' {
        'S'
    } else if c == 't' {
        'T'
    } else if c == 'u' {
        'U'
    } else if c == 'v' {
        'V'
    } else if c == 'w' {
        'W'
    } else if c == 'x' {
        'X'
    } else if c == 'y' {
        'Y'
    } else if c == 'z' {
        'Z'
    } else {
        c
    };
    proof {
        assert(uc == upper_char(s@[0]));
    }
    let mut out: Vec<char> = Vec::new();
    out.push(uc);
    let mut rest = crate::text::copy_range(&v, 1, v.len());
    out.append(&mut rest);
    proof {
        assert(out@ =~= titlecased(s@));
    }
    string_of(&out)
}

/// The settled location of a config file: under the base directory where
/// it is present there, the bare relative path as a fallback where errors
/// are ignored, nothing otherwise.
pub open spec fn setting_path_of(
    base: Seq<char>,
    path: Seq<char>,
    joined_exists: bool,
    ignore_err: bool,
) -> Option<Seq<char>> {
    if joined_exists {
        Option::Some(base + seq!['/'] + path)
    } else if ignore_err {
        Option::Some(path)
    } else {
        Option::None
    }
}

/// Settle where a config file lives: the caller says whether the joined
/// path exists on disk.
pub fn check_setting_path(base_path: &String, path: &String, joined_exists: bool, ignore_err: bool)
    -> (r: Option<String>)
    ensures
        match r {
            Option::Some(p) => setting_path_of(base_path@, path@, joined_exists, ignore_err)
                == Option::Some(p@),
            Option::None => setting_path_of(
                base_path@,
                path@,
                joined_exists,
                ignore_err,
            ) is None,
        },
{
    if joined_exists {
        let s = String::new();
        let s = s.concat(base_path.as_str());
        let s = s.concat("/");
        let s = s.concat(path.as_str());
        proof {
            reveal_strlit("/");
            assert(s@ =~= base_path@ + seq!['/'] + path@);
        }
        Option::Some(s)
    } else if ignore_err {
        let s = String::new();
        Option::Some(s.concat(path.as_str()))
    } else {
        Option::None
    }
}


/// The config files a rules directory must hold.
pub open spec fn required_files() -> Seq<Seq<char>> {
    seq![
        "channel_abbreviations.txt"@,
        "target_event_IDs.txt"@,
        "default_details.txt"@,
        "level_tuning.txt"@,
        "statistics_event_info.txt"@,
        "eventkey_alias.txt"@,
    ]
}

/// The required files that are not among the existing ones, in order.
pub open spec fn missing_from(req: Seq<Seq<char>>, existing: Seq<Seq<char>>) -> Seq<Seq<char>>
    decreases req.len(),
{
    if req.len() == 0 {
        Seq::empty()
    } else {
        let rest = missing_from(req.drop_first(), existing);
        if exists|i: int| 0 <= i < existing.len() && existing[i] == req[0] {
            rest
        } else {
            seq![req[0]] + rest
        }
    }
}

/// Names joined by a comma and a space.
pub open spec fn comma_joined(ss: Seq<Seq<char>>) -> Seq<char>
    decreases ss.len(),
{
    if ss.len() == 0 {
        Seq::empty()
    } else if ss.len() == 1 {
        ss[0]
    } else {
        ss[0] + ", "@ + comma_joined(ss.drop_first())
    }
}

/// What checking the rules config comes to: an error naming the missing
/// directory, an error listing every missing file, or success.
pub open spec fn rule_config_check(folder_exists: bool, existing: Seq<Seq<char>>) -> Result<
    (),
    Seq<char>,
> {
    if !folder_exists {
        Result::Err(
            "The required rules config files were not found. Please download them with --update-rules"@,
        )
    } else if missing_from(required_files(), existing).len() > 0 {
        Result::Err(
            "Could not find the following config files: "@ + comma_joined(
                missing_from(required_files(), existing),
            ) + "\nPlease specify a correct rules config directory.\n"@,
        )
    } else {
        Result::Ok(())
    }
}

/// Whether some existing name equals `f`.
fn contains_name(existing: &Vec<String>, f: &str) -> (r: bool)
    ensures
        r == exists|i: int|
            0 <= i < existing.deep_view().len() && existing.deep_view()[i] == f@,
{
    let fc = chars_of(f);
    let mut i: usize = 0;
    while i < existing.len()
        invariant
            i <= existing@.len(),
            fc@ == f@,
            forall|k: int| 0 <= k < i ==> existing.deep_view()[k] != f@,
        decreases existing@.len() - i,
    {
        let ec = chars_of(existing[i].as_str());
        if crate::text::chars_eq(&ec, &fc) {
            proof {
                assert(existing.deep_view()[i as int] == existing@[i as int]@);
            }
            return true;
        }
        i = i + 1;
    }
    false
}

/// Check that the rules config directory and each required config file
/// are present; the caller says which files exist.
pub fn check_rule_config(folder_exists: bool, existing_files: &Vec<String>) -> (r: Result<
    (),
    String,
>)
    ensures
        match r {
            Result::Ok(u) => rule_config_check(folder_exists, existing_files.deep_view())
                is Ok,
            Result::Err(e) => rule_config_check(folder_exists, existing_files.deep_view())
                == Result::Err::<(), Seq<char>>(e@),
        },
{
    if !folder_exists {
        let s = String::new();
        return Result::Err(
            s.concat(
                "The required rules config files were not found. Please download them with --update-rules",
            ),
        );
    }
    let mut req: Vec<String> = Vec::new();
    let e = String::new();
    req.push(e.concat("channel_abbreviations.txt"));
    let e = String::new();
    req.push(e.concat("target_event_IDs.txt"));
    let e = String::new();
    req.push(e.concat("default_details.txt"));
    let e = String::new();
    req.push(e.concat("level_tuning.txt"));
    let e = String::new();
    req.push(e.concat("statistics_event_info.txt"));
    let e = String::new();
    req.push(e.concat("eventkey_alias.txt"));
    proof {
        assert(req.deep_view() =~= required_files());
    }
    let ghost ex = existing_files.deep_view();
    let mut missing: Vec<String> = Vec::new();
    let mut j: usize = 0;
    proof {
        assert(req.deep_view().skip(0) =~= required_files());
    }
    while j < req.len()
        invariant
            j <= req@.len(),
            req.deep_view() == required_files(),
            req.deep_view().len() == req@.len(),
            ex == existing_files.deep_view(),
            missing_from(required_files(), ex) == missing.deep_view() + missing_from(
                req.deep_view().skip(j as int),
                ex,
            ),
        decreases req@.len() - j,
    {
        proof {
            assert(req.deep_view().skip(j as int)[0] == req.deep_view()[j as int]);
            assert(req.deep_view().skip(j as int).drop_first() =~= req.deep_view().skip(j
                + 1));
        }
        if !contains_name(existing_files, req[j].as_str()) {
            let ghost mb = missing.deep_view();
            let nm = req[j].clone();
            missing.push(nm);
            proof {
                assert forall|k: int|
                    0 <= k < missing.deep_view().len() implies missing.deep_view()[k] == (
                mb + seq![req.deep_view()[j as int]])[k] by {
                    if k < mb.len() {
                    } else {
                        assert(missing@[k]@ == req@[j as int]@);
                    }
                }
                assert(missing.deep_view() =~= mb + seq![req.deep_view()[j as int]]);
            }
        }
        j = j + 1;
    }
    proof {
        assert(req.deep_view().skip(j as int) =~= Seq::<Seq<char>>::empty());
        assert(missing.deep_view() =~= missing_from(required_files(), ex));
    }
    if missing.len() == 0 {
        proof {
            assert(missing_from(required_files(), ex).len() == 0);
        }
        return Result::Ok(());
    }
    let ghost mv = missing.deep_view();
    let mut joined = String::new();
    let mut k: usize = 0;
    while k < missing.len()
        invariant
            k <= missing@.len(),
            mv == missing.deep_view(),
            mv.len() == missing@.len(),
            k == 0 ==> joined@ == Seq::<char>::empty(),
            0 < k < mv.len() ==> comma_joined(mv) == joined@ + ", "@ + comma_joined(
                mv.skip(k as int),
            ),
            k == mv.len() && k > 0 ==> joined@ == comma_joined(mv),
        decreases mv.len() - k,
    {
        let ghost pre = joined@;
        if k > 0 {
            joined = joined.concat(", ");
        }
        joined = joined.concat(missing[k].as_str());
        proof {
            assert(mv[k as int] == missing@[k as int]@);
            if k == 0 {
                if mv.len() > 1 {
                    assert(comma_joined(mv) == mv[0] + ", "@ + comma_joined(mv.skip(1)));
                    assert(comma_joined(mv) =~= joined@ + ", "@ + comma_joined(mv.skip(1)));
                } else {
                    assert(comma_joined(mv) == mv[0]);
                }
            } else {
                let tail = mv.skip(k as int);
                assert(comma_joined(mv) == pre + ", "@ + comma_joined(tail));
                assert(tail[0] == mv[k as int]);
                if tail.len() > 1 {
                    assert(comma_joined(tail) == tail[0] + ", "@ + comma_joined(
                        tail.skip(1),
                    ));
                    assert(tail.skip(1) =~= mv.skip(k + 1));
                    assert(comma_joined(mv) =~= joined@ + ", "@ + comma_joined(
                        mv.skip(k + 1),
                    ));
                } else {
                    assert(comma_joined(tail) == tail[0]);
                    assert(joined@ =~= comma_joined(mv));
                }
            }
        }
        k = k + 1;
    }
    let s = String::new();
    let s = s.concat("Could not find the following config files: ");
    let s = s.concat(joined.as_str());
    let s = s.concat("\nPlease specify a correct rules config directory.\n");
    Result::Err(s)
}

/// One decoded event with its precomputed projections: the serialized
/// text, the values of the engine's frequent keys, and the flat summary.
pub struct EvtxRecordInfo {
    pub evtx_filepath: String,
    pub record: RecordNode,
    pub data_string: String,
    pub key_2_value: crate::maps::StringTable,
    pub record_information: Option<String>,
}

/// The table of frequent-key values a record yields: every key whose
/// projection reaches a scalar, bound to that scalar's display text.
pub open spec fn keys_table(
    keys: Seq<Seq<char>>,
    rv: NodeView,
    al: Seq<(Seq<char>, Seq<char>)>,
) -> Map<Seq<char>, Seq<char>>
    decreases keys.len(),
{
    if keys.len() == 0 {
        Map::empty()
    } else {
        let m = keys_table(keys.drop_last(), rv, al);
        match event_value_of(keys.last(), rv, al) {
            Option::Some(n) => match scalar_string(n) {
                Option::Some(t) => m.insert(keys.last(), t),
                Option::None => m,
            },
            Option::None => m,
        }
    }
}

/// Assemble one record's precomputed projections.
pub fn create_rec_info(
    data: RecordNode,
    path: String,
    keys: &Vec<String>,
    aliases: &AliasDirectory,
) -> (r: EvtxRecordInfo)
    ensures
        r.evtx_filepath@ == path@,
        r.record@ == data@,
        r.data_string@ == crate::record::json_of(data@),
        crate::maps::table_map(r.key_2_value) == keys_table(keys.deep_view(), data@, aliases@),
        r.record_information is Some && r.record_information->0@ == crate::flatten::record_summary(
            data@,
        ),
{
    let ghost dv = data@;
    let ghost al = aliases@;
    let ghost kv = keys.deep_view();
    let mut jc: Vec<char> = Vec::new();
    crate::record::write_json(&data, &mut jc);
    let data_str = string_of(&jc);
    let rec_info = crate::flatten::create_recordinfos(&data);
    let mut table = crate::maps::StringTable::new();
    proof {
        assert(kv.take(0) =~= Seq::<Seq<char>>::empty());
        assert(crate::maps::table_map(table) =~= keys_table(kv.take(0), dv, al));
    }
    let mut j: usize = 0;
    while j < keys.len()
        invariant
            j <= keys@.len(),
            kv == keys.deep_view(),
            kv.len() == keys@.len(),
            dv == data@,
            al == aliases@,
            crate::maps::table_map(table) == keys_table(kv.take(j as int), dv, al),
        decreases keys@.len() - j,
    {
        proof {
            assert(kv.take(j + 1).drop_last() =~= kv.take(j as int));
            assert(kv.take(j + 1).last() == kv[j as int]);
            assert(kv[j as int] == keys@[j as int]@);
        }
        match get_event_value(&keys[j], &data, aliases) {
            Option::Some(n) => {
                match value_to_string(&n) {
                    Option::Some(t) => {
                        let kcopy = keys[j].clone();
                        table.insert(kcopy, t);
                    },
                    Option::None => {},
                }
            },
            Option::None => {},
        }
        j = j + 1;
    }
    proof {
        assert(kv.take(j as int) =~= kv);
    }
    EvtxRecordInfo {
        evtx_filepath: path,
        record: data,
        data_string: data_str,
        key_2_value: table,
        record_information: Option::Some(rec_info),
    }
}

} // verus!
