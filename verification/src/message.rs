//! Template resolution and the alert pipeline: `%Token%` substitution over
//! a record, the reserved-keyword pre-pass, and insertion into the
//! aggregation store.
use vstd::prelude::*;

use crate::aliases::AliasDirectory;
use crate::detect::DetectInfo;
use crate::detect::DetectInfoView;
use crate::maps::entry_views;
use crate::maps::key_index;
use crate::maps::keys_unique;
use crate::maps::lemma_key_index;
use crate::maps::lhm_insert;
use crate::maps::lhm_new;
use crate::maps::lhm_pairs;
use crate::projector::resolve_token;
use crate::projector::token_replacement;
use crate::projector::token_run;
use crate::record::NodeView;
use crate::record::RecordNode;
use crate::store::bucket_of;
use crate::store::AlertStore;
use crate::text::chars_of;
use crate::text::contains_pattern;
use crate::text::contains_seq;
use crate::text::copy_range;
use crate::text::replace_all;
use crate::text::replaced;
use crate::text::string_of;
use crate::text::strip_control;
use crate::text::without_control;

verus! {

/// Whether a `%Token%` placeholder starts right here: a percent sign, one
/// or more token characters, and a closing percent sign.
pub open spec fn token_at(s: Seq<char>) -> bool {
    &&& s.len() >= 3
    &&& s[0] == '%'
    &&& token_run(s.skip(1)).len() >= 1
    &&& token_run(s.skip(1)).len() + 1 < s.len()
    &&& s[token_run(s.skip(1)).len() as int + 1] == '%'
}

pub proof fn lemma_token_run_len(s: Seq<char>)
    ensures
        token_run(s).len() <= s.len(),
    decreases s.len(),
{
    if s.len() > 0 && crate::projector::is_token_char(s[0]) {
        lemma_token_run_len(s.skip(1));
    }
}

/// The whole template with every `%Token%` placeholder replaced by its
/// projected text, in one left-to-right pass: replacement text is never
/// rescanned.
pub open spec fn resolved_template(
    s: Seq<char>,
    rv: NodeView,
    al: Seq<(Seq<char>, Seq<char>)>,
) -> Seq<char>
    decreases s.len(),
    via resolved_template_dec
{
    if s.len() == 0 {
        Seq::empty()
    } else if token_at(s) {
        token_replacement(token_run(s.skip(1)), rv, al) + resolved_template(
            s.skip(token_run(s.skip(1)).len() as int + 2),
            rv,
            al,
        )
    } else {
        seq![s[0]] + resolved_template(s.skip(1), rv, al)
    }
}

#[via_fn]
proof fn resolved_template_dec(s: Seq<char>, rv: NodeView, al: Seq<(Seq<char>, Seq<char>)>) {
    if s.len() > 0 {
        lemma_token_run_len(s.skip(1));
    }
}

/// Resolve every `%Token%` placeholder of `output` against the record and
/// strip control characters from the outcome.
pub fn parse_message(event_record: &RecordNode, output: &String, aliases: &AliasDirectory) -> (r:
    String)
    ensures
        r@ == without_control(resolved_template(output@, event_record@, aliases@)),
{
    let v = chars_of(output.as_str());
    let ghost rv = event_record@;
    let ghost al = aliases@;
    let mut out: Vec<char> = Vec::new();
    let mut i: usize = 0;
    proof {
        assert(v@.skip(0) =~= v@);
    }
    while i < v.len()
        invariant
            i <= v@.len(),
            rv == event_record@,
            al == aliases@,
            resolved_template(v@, rv, al) == out@ + resolved_template(v@.skip(i as int), rv, al),
        decreases v@.len() - i,
    {
        let ghost tail = v@.skip(i as int);
        proof {
            assert(tail[0] == v@[i as int]);
            assert(tail.skip(1) =~= v@.skip(i + 1));
        }
        let mut plain = true;
        if v[i] == '%' {
            let j = crate::projector::token_run_end(&v, i + 1);
            proof {
                assert(token_run(tail.skip(1)) == v@.subrange(i + 1, j as int));
                assert(token_run(tail.skip(1)).len() == j - i - 1);
            }
            if j > i + 1 && j < v.len() && v[j] == '%' {
                proof {
                    assert(tail[j - i] == v@[j as int]);
                    assert(token_at(tail));
                }
                let tok = copy_range(&v, i + 1, j);
                let mut rep = resolve_token(&tok, event_record, aliases);
                let ghost repv = rep@;
                out.append(&mut rep);
                proof {
                    assert(tail.skip(token_run(tail.skip(1)).len() as int + 2) =~= v@.skip(j
                        + 1));
                    assert(resolved_template(tail, rv, al) == repv + resolved_template(
                        v@.skip(j + 1),
                        rv,
                        al,
                    ));
                }
                i = j + 1;
                plain = false;
            } else {
                proof {
                    assert(!token_at(tail));
                }
            }
        } else {
            proof {
                assert(!token_at(tail));
            }
        }
        if plain {
            proof {
                assert(resolved_template(tail, rv, al) == seq![tail[0]] + resolved_template(
                    tail.skip(1),
                    rv,
                    al,
                ));
            }
            out.push(v[i]);
            i = i + 1;
        }
    }
    proof {
        assert(v@.skip(i as int) =~= Seq::<char>::empty());
        assert(out@ =~= out@ + resolved_template(v@.skip(i as int), rv, al));
    }
    let stripped = strip_control(&out);
    string_of(&stripped)
}

/// The template after every reserved pair replaced its key, in order;
/// pairs with an empty key change nothing.
pub open spec fn replaced_all(s: Seq<char>, pairs: Seq<(Seq<char>, Seq<char>)>) -> Seq<char>
    decreases pairs.len(),
{
    if pairs.len() == 0 {
        s
    } else if pairs[0].0.len() == 0 {
        replaced_all(s, pairs.drop_first())
    } else {
        replaced_all(replaced(s, pairs[0].0, pairs[0].1), pairs.drop_first())
    }
}

/// Replace every reserved placeholder of the profile by its precomputed
/// text, each pair applied in order.
pub fn convert_profile_reserved_info(output: &String, config_reserved_info: &Vec<
    (String, String),
>) -> (r: String)
    ensures
        r@ == replaced_all(output@, entry_views(config_reserved_info@)),
{
    let ghost ps = entry_views(config_reserved_info@);
    let mut cur = chars_of(output.as_str());
    let mut j: usize = 0;
    proof {
        assert(ps.skip(0) =~= ps);
    }
    while j < config_reserved_info.len()
        invariant
            j <= config_reserved_info@.len(),
            ps == entry_views(config_reserved_info@),
            ps.len() == config_reserved_info@.len(),
            replaced_all(output@, ps) == replaced_all(cur@, ps.skip(j as int)),
        decreases config_reserved_info@.len() - j,
    {
        proof {
            assert(ps.skip(j as int)[0] == ps[j as int]);
            assert(ps.skip(j as int).skip(1) =~= ps.skip(j + 1));
        }
        let pat = chars_of(config_reserved_info[j].0.as_str());
        let rep = chars_of(config_reserved_info[j].1.as_str());
        if pat.len() >= 1 {
            cur = replace_all(&cur, &pat, &rep);
        }
        j = j + 1;
    }
    proof {
        assert(ps.skip(j as int) =~= Seq::<(Seq<char>, Seq<char>)>::empty());
    }
    string_of(&cur)
}

/// Append one detection to the bucket of its timestamp, creating the
/// bucket if absent. Nothing else changes; nothing is lost.
pub fn insert_message(store: &mut AlertStore, detect_info: DetectInfo, event_time: i64)
    ensures
        final(store)@ == old(store)@.insert(
            event_time,
            bucket_of(old(store)@, event_time).push(detect_info@),
        ),
{
    let ghost dv = detect_info@;
    store.push_info(event_time, detect_info);
}

/// A snapshot copy of the bucket for `time`; an absent timestamp yields
/// the empty sequence.
pub fn get(store: &AlertStore, time: i64) -> (r: Vec<DetectInfo>)
    ensures
        crate::detect::infos_view(r@) == bucket_of(store@, time),
{
    store.snapshot(time)
}

/// The literal `%Details%` marker.
pub open spec fn details_marker() -> Seq<char> {
    seq!['%', 'D', 'e', 't', 'a', 'i', 'l', 's', '%']
}

/// The literal `%RecordInformation%` marker.
pub open spec fn recinfo_marker() -> Seq<char> {
    seq![
        '%',
        'R',
        'e',
        'c',
        'o',
        'r',
        'd',
        'I',
        'n',
        'f',
        'o',
        'r',
        'm',
        'a',
        't',
        'i',
        'o',
        'n',
        '%',
    ]
}

/// The reserved pairs with `k` now bound to `v`: updated in place where
/// the key exists, appended otherwise.
pub open spec fn upserted(
    ps: Seq<(Seq<char>, Seq<char>)>,
    k: Seq<char>,
    v: Seq<char>,
) -> Seq<(Seq<char>, Seq<char>)> {
    if key_index(ps, k) == -1 {
        ps.push((k, v))
    } else {
        ps.update(key_index(ps, k), (k, v))
    }
}

pub proof fn lemma_key_index_first(ps: Seq<(Seq<char>, Seq<char>)>, k: Seq<char>, j: int)
    requires
        0 <= j < ps.len(),
        ps[j].0 == k,
        forall|i: int| 0 <= i < j ==> ps[i].0 != k,
    ensures
        key_index(ps, k) == j,
    decreases j,
{
    if j > 0 {
        assert(forall|i: int| 0 <= i < j - 1 ==> ps.drop_first()[i] == ps[i + 1]);
        assert(ps.drop_first()[j - 1] == ps[j]);
        lemma_key_index_first(ps.drop_first(), k, j - 1);
    }
}

/// Bind `k` to `v` among the reserved pairs.
fn set_reserved(pairs: &mut Vec<(String, String)>, k: String, v: String)
    ensures
        entry_views(final(pairs)@) == upserted(entry_views(old(pairs)@), k@, v@),
{
    let ghost ps = entry_views(old(pairs)@);
    let ghost kv = k@;
    let ghost vv = v@;
    let mut j: usize = 0;
    while j < pairs.len()
        invariant
            j <= pairs@.len(),
            ps == entry_views(pairs@),
            ps == entry_views(old(pairs)@),
            ps.len() == pairs@.len(),
            kv == k@,
            vv == v@,
            forall|i: int| 0 <= i < j ==> ps[i].0 != kv,
        decreases pairs@.len() - j,
    {
        let pk = chars_of(pairs[j].0.as_str());
        let kc = chars_of(k.as_str());
        if crate::text::chars_eq(&pk, &kc) {
            proof {
                assert(ps[j as int].0 == kv);
                lemma_key_index_first(ps, kv, j as int);
            }
            pairs.remove(j);
            pairs.insert(j, (k, v));
            proof {
                assert(entry_views(pairs@) =~= ps.update(j as int, (kv, vv)));
            }
            return ;
        }
        j = j + 1;
    }
    proof {
        lemma_key_index(ps, kv);
        assert(key_index(ps, kv) == -1);
    }
    pairs.push((k, v));
    proof {
        assert(entry_views(pairs@) =~= ps.push((kv, vv)));
    }
}

/// How one output-field value comes out of the pipeline: the reserved
/// pre-pass always runs; a field whose template holds a reserved marker is
/// final, every other field then goes through template resolution.
pub open spec fn converted_value(
    v: Seq<char>,
    reserved: Seq<(Seq<char>, Seq<char>)>,
    rv: NodeView,
    al: Seq<(Seq<char>, Seq<char>)>,
) -> Seq<char> {
    let c = replaced_all(v, reserved);
    if contains_seq(v, recinfo_marker()) || contains_seq(v, details_marker()) {
        c
    } else {
        without_control(resolved_template(c, rv, al))
    }
}

/// Every output field converted, keys and order kept.
pub open spec fn converted_fields(
    ps: Seq<(Seq<char>, Seq<char>)>,
    reserved: Seq<(Seq<char>, Seq<char>)>,
    rv: NodeView,
    al: Seq<(Seq<char>, Seq<char>)>,
) -> Seq<(Seq<char>, Seq<char>)> {
    Seq::new(ps.len(), |i: int| (ps[i].0, converted_value(ps[i].1, reserved, rv, al)))
}

/// The detail text of one alert: the resolved template, or `-` where it
/// came out empty; an aggregation alert keeps the detail it was given.
pub open spec fn detail_text(
    is_agg: bool,
    given: Seq<char>,
    output: Seq<char>,
    rv: NodeView,
    al: Seq<(Seq<char>, Seq<char>)>,
) -> Seq<char> {
    if is_agg {
        given
    } else {
        let p = without_control(resolved_template(output, rv, al));
        if p.len() == 0 {
            seq!['-']
        } else {
            p
        }
    }
}

/// Whether any profile value asks for the `%Details%` text.
pub open spec fn wants_details(profiles: Seq<String>) -> bool {
    exists|i: int| 0 <= i < profiles.len() && contains_seq(#[trigger] profiles[i]@, details_marker())
}

/// The detection as the store receives it.
pub open spec fn inserted_info(
    d: DetectInfoView,
    detail: Seq<char>,
    ext: Seq<(Seq<char>, Seq<char>)>,
) -> DetectInfoView {
    DetectInfoView { detail: detail, ext_field: ext, ..d }
}

/// Resolve one detection's templates and append it to the aggregation
/// store: the detail template (unless the alert is an aggregation one),
/// then the reserved pre-pass and template resolution over every extra
/// output field.
pub fn insert(
    store: &mut AlertStore,
    aliases: &AliasDirectory,
    profiles: &Vec<String>,
    event_record: &RecordNode,
    output: String,
    detect_info: DetectInfo,
    time: i64,
    profile_converter: &mut Vec<(String, String)>,
    is_agg: bool,
)
    ensures
        ({
            let detail = detail_text(
                is_agg,
                detect_info.detail@,
                output@,
                event_record@,
                aliases@,
            );
            let reserved = if wants_details(profiles@) {
                upserted(entry_views(old(profile_converter)@), details_marker(), detail)
            } else {
                entry_views(old(profile_converter)@)
            };
            let ext = converted_fields(
                detect_info@.ext_field,
                reserved,
                event_record@,
                aliases@,
            );
            &&& entry_views(final(profile_converter)@) == reserved
            &&& final(store)@ == old(store)@.insert(
                time,
                bucket_of(old(store)@, time).push(
                    inserted_info(detect_info@, detail, ext),
                ),
            )
        }),
{
    let mut info = detect_info;
    let ghost d0 = detect_info@;
    let ghost rv = event_record@;
    let ghost al = aliases@;
    if !is_agg {
        let parsed = parse_message(event_record, &output, aliases);
        if parsed.as_str().is_empty() {
            let dash = String::new();
            info.detail = dash.concat("-");
            proof {
                reveal_strlit("-");
                assert(info.detail@ =~= seq!['-']);
            }
        } else {
            info.detail = parsed;
        }
    }
    let ghost detail = detail_text(is_agg, d0.detail, output@, rv, al);
    proof {
        assert(info.detail@ == detail);
    }
    let dm = chars_of("%Details%");
    proof {
        reveal_strlit("%Details%");
        assert(dm@ =~= details_marker());
    }
    let rm = chars_of("%RecordInformation%");
    proof {
        reveal_strlit("%RecordInformation%");
        assert(rm@ =~= recinfo_marker());
    }
    let mut exist_detail = false;
    let mut pi: usize = 0;
    while pi < profiles.len()
        invariant
            pi <= profiles@.len(),
            dm@ == details_marker(),
            exist_detail == exists|i: int|
                0 <= i < pi && contains_seq(#[trigger] profiles@[i]@, details_marker()),
        decreases profiles@.len() - pi,
    {
        let pc = chars_of(profiles[pi].as_str());
        if contains_pattern(&pc, &dm) {
            exist_detail = true;
        }
        pi = pi + 1;
    }
    proof {
        assert(exist_detail == wants_details(profiles@));
    }
    if exist_detail {
        let mut key = String::new();
        let key2 = key.concat("%Details%");
        proof {
            reveal_strlit("%Details%");
            assert(key2@ =~= details_marker());
        }
        set_reserved(profile_converter, key2, info.detail.clone());
    }
    let ghost reserved = if wants_details(profiles@) {
        upserted(entry_views(old(profile_converter)@), details_marker(), detail)
    } else {
        entry_views(old(profile_converter)@)
    };
    proof {
        assert(entry_views(profile_converter@) == reserved);
    }
    let entries = crate::maps::lhm_entries(&info.ext_field);
    let ghost extv = d0.ext_field;
    proof {
        assert(entry_views(entries@) == extv);
        assert(keys_unique(extv));
    }
    let mut new_ext = lhm_new();
    let mut j: usize = 0;
    while j < entries.len()
        invariant
            j <= entries@.len(),
            entry_views(entries@) == extv,
            extv.len() == entries@.len(),
            keys_unique(extv),
            rv == event_record@,
            al == aliases@,
            reserved == entry_views(profile_converter@),
            dm@ == details_marker(),
            rm@ == recinfo_marker(),
            info.detail@ == detail,
            info.rulepath@ == d0.rulepath,
            info.ruletitle@ == d0.ruletitle,
            info.level@ == d0.level,
            info.computername@ == d0.computername,
            info.eventid@ == d0.eventid,
            info@.record_information == d0.record_information,
            lhm_pairs(new_ext).len() == j,
            forall|i: int|
                0 <= i < j ==> lhm_pairs(new_ext)[i] == (
                extv[i].0,
                converted_value(extv[i].1, reserved, rv, al),
                ),
        decreases entries@.len() - j,
    {
        let k = entries[j].0.clone();
        let vc = chars_of(entries[j].1.as_str());
        let conv = convert_profile_reserved_info(&entries[j].1, profile_converter);
        let keep = contains_pattern(&vc, &rm) || contains_pattern(&vc, &dm);
        let nv: String = if keep {
            conv
        } else {
            parse_message(event_record, &conv, aliases)
        };
        proof {
            assert(extv[j as int] == (entries@[j as int].0@, entries@[j as int].1@));
            assert(nv@ == converted_value(extv[j as int].1, reserved, rv, al));
            lemma_key_index(lhm_pairs(new_ext), k@);
            if key_index(lhm_pairs(new_ext), k@) != -1 {
                let bad = key_index(lhm_pairs(new_ext), k@);
                assert(lhm_pairs(new_ext)[bad].0 == extv[bad].0);
                assert(extv[bad].0 == extv[j as int].0);
                assert(false);
            }
        }
        let ghost before = lhm_pairs(new_ext);
        lhm_insert(&mut new_ext, k, nv);
        proof {
            assert(lhm_pairs(new_ext) =~= before.push(
                (extv[j as int].0, converted_value(extv[j as int].1, reserved, rv, al)),
            ));
        }
        j = j + 1;
    }
    proof {
        assert(lhm_pairs(new_ext) =~= converted_fields(extv, reserved, rv, al));
    }
    info.ext_field = new_ext;
    proof {
        assert(info@ =~= inserted_info(d0, detail, converted_fields(extv, reserved, rv, al)));
    }
    insert_message(store, info, time);
}

/// The tag/channel expansion table a two-column file yields: each
/// two-column row maps its lower-cased trimmed first column to its
/// trimmed second column; every other row is skipped.
pub open spec fn filter_table_of(rows: Seq<Seq<Seq<char>>>) -> Map<Seq<char>, Seq<char>>
    decreases rows.len(),
{
    if rows.len() == 0 {
        Map::empty()
    } else {
        let m = filter_table_of(rows.drop_last());
        let r = rows.last();
        if r.len() == 2 {
            m.insert(crate::text::ascii_lowered(crate::text::trimmed(r[0])), crate::text::trimmed(r[1]))
        } else {
            m
        }
    }
}

/// Build the tag/channel expansion table out of the rows a config file
/// gave; where the file could not be read, the table is empty.
pub fn create_output_filter_config(read_result: &Result<Vec<Vec<String>>, String>) -> (t:
    crate::maps::StringTable)
    ensures
        match read_result {
            Result::Ok(lines) => crate::maps::table_map(t) == filter_table_of(lines.deep_view()),
            Result::Err(_) => forall|k: Seq<char>|
                !(#[trigger] crate::maps::table_map(t).contains_key(k)),
        },
{
    match read_result {
        Result::Err(_) => crate::maps::StringTable::new(),
        Result::Ok(lines) => {
            let ghost dv = lines.deep_view();
            let mut t = crate::maps::StringTable::new();
            proof {
                assert(dv.take(0) =~= Seq::<Seq<Seq<char>>>::empty());
                assert(crate::maps::table_map(t) =~= filter_table_of(dv.take(0)));
            }
            let mut j: usize = 0;
            while j < lines.len()
                invariant
                    j <= lines@.len(),
                    dv == lines.deep_view(),
                    dv.len() == lines@.len(),
                    crate::maps::table_map(t) == filter_table_of(dv.take(j as int)),
                decreases lines@.len() - j,
            {
                proof {
                    assert(dv.take(j + 1).drop_last() =~= dv.take(j as int));
                    assert(dv.take(j + 1).last() == dv[j as int]);
                    assert(dv[j as int].len() == lines@[j as int]@.len());
                }
                if lines[j].len() == 2 {
                    let kc = chars_of(lines[j][0].as_str());
                    let kt = crate::text::trim_chars(&kc);
                    let kl = crate::text::ascii_lower_chars(&kt);
                    let vc = chars_of(lines[j][1].as_str());
                    let vt = crate::text::trim_chars(&vc);
                    proof {
                        assert(dv[j as int][0] == lines@[j as int]@[0]@);
                        assert(dv[j as int][1] == lines@[j as int]@[1]@);
                    }
                    t.insert(string_of(&kl), string_of(&vt));
                }
                j = j + 1;
            }
            proof {
                assert(dv.take(j as int) =~= dv);
            }
            t
        },
    }
}

/// The default-details table a three-column file yields: provider and
/// numeric event id key the trimmed detail template; a row whose event id
/// does not parse, or with fewer columns, is skipped.
pub open spec fn details_table_of(rows: Seq<Seq<Seq<char>>>) -> Map<Seq<char>, Seq<char>>
    decreases rows.len(),
{
    if rows.len() == 0 {
        Map::empty()
    } else {
        let m = details_table_of(rows.drop_last());
        let r = rows.last();
        if r.len() >= 3 && crate::numtext::parsed_i64(crate::text::trimmed(r[1])) is Some {
            m.insert(
                crate::text::trimmed(r[0]) + seq!['_'] + crate::numtext::idec(
                    crate::numtext::parsed_i64(crate::text::trimmed(r[1]))->0,
                ),
                crate::text::trimmed(r[2]),
            )
        } else {
            m
        }
    }
}

/// Build the per-event default-details table out of the rows a config
/// file gave; where the file could not be read, the table is empty.
pub fn get_default_details(read_result: &Result<Vec<Vec<String>>, String>) -> (t:
    crate::maps::StringTable)
    ensures
        match read_result {
            Result::Ok(lines) => crate::maps::table_map(t) == details_table_of(
                lines.deep_view(),
            ),
            Result::Err(_) => forall|k: Seq<char>|
                !(#[trigger] crate::maps::table_map(t).contains_key(k)),
        },
{
    match read_result {
        Result::Err(_) => crate::maps::StringTable::new(),
        Result::Ok(lines) => {
            let ghost dv = lines.deep_view();
            let mut t = crate::maps::StringTable::new();
            proof {
                assert(dv.take(0) =~= Seq::<Seq<Seq<char>>>::empty());
                assert(crate::maps::table_map(t) =~= details_table_of(dv.take(0)));
            }
            let mut j: usize = 0;
            while j < lines.len()
                invariant
                    j <= lines@.len(),
                    dv == lines.deep_view(),
                    dv.len() == lines@.len(),
                    crate::maps::table_map(t) == details_table_of(dv.take(j as int)),
                decreases lines@.len() - j,
            {
                proof {
                    assert(dv.take(j + 1).drop_last() =~= dv.take(j as int));
                    assert(dv.take(j + 1).last() == dv[j as int]);
                    assert(dv[j as int].len() == lines@[j as int]@.len());
                }
                if lines[j].len() >= 3 {
                    proof {
                        assert(dv[j as int][0] == lines@[j as int]@[0]@);
                        assert(dv[j as int][1] == lines@[j as int]@[1]@);
                        assert(dv[j as int][2] == lines@[j as int]@[2]@);
                    }
                    let ec = chars_of(lines[j][1].as_str());
                    let et = crate::text::trim_chars(&ec);
                    match crate::numtext::parse_i64(&et) {
                        Option::Some(eid) => {
                            let pc = chars_of(lines[j][0].as_str());
                            let mut key = crate::text::trim_chars(&pc);
                            key.push('_');
                            let mut num = crate::numtext::i64_dec_chars(eid);
                            key.append(&mut num);
                            let dc = chars_of(lines[j][2].as_str());
                            let dt = crate::text::trim_chars(&dc);
                            proof {
                                assert(key@ =~= crate::text::trimmed(dv[j as int][0])
                                    + seq!['_'] + crate::numtext::idec(eid as int));
                            }
                            t.insert(string_of(&key), string_of(&dt));
                        },
                        Option::None => {},
                    }
                }
                j = j + 1;
            }
            proof {
                assert(dv.take(j as int) =~= dv);
            }
            t
        },
    }
}

/// Writes single-line diagnostics for the alert sink; the sink itself is
/// an outside collaborator, this type only words the lines.
pub struct AlertMessage {}

impl AlertMessage {
    /// The error line the alert sink prints for `contents`.
    pub fn error_line(contents: &str) -> (r: String)
        ensures
            r@ == "[ERROR] "@ + contents@,
    {
        let s = String::new();
        let s = s.concat("[ERROR] ");
        s.concat(contents)
    }

    /// The warning line the alert sink prints for `contents`.
    pub fn warn_line(contents: &str) -> (r: String)
        ensures
            r@ == "[WARN] "@ + contents@,
    {
        let s = String::new();
        let s = s.concat("[WARN] ");
        s.concat(contents)
    }
}

/// The node `v` keeps under `key`, a missing or non-object step standing
/// for a null node.
pub open spec fn child_or_null(v: NodeView, key: Seq<char>) -> NodeView {
    match crate::record::child_of(v, key) {
        Option::Some(c) => c,
        Option::None => NodeView::Null,
    }
}

/// Where the canonical UTC timestamp of a record sits, and what it reads:
/// the `SystemTime` attribute under `Event.System`, parsed as RFC 3339.
pub open spec fn event_time_of(rv: NodeView) -> Option<i64> {
    let n = child_or_null(
        child_or_null(
            child_or_null(child_or_null(rv, "Event"@), "System"@),
            "TimeCreated_attributes"@,
        ),
        "SystemTime"@,
    );
    match n {
        NodeView::Text(s) => if s.len() == 0 {
            Option::None
        } else {
            crate::timefmt::rfc3339_micros(s)
        },
        _ => Option::None,
    }
}

/// Read the canonical UTC timestamp out of a record, in microseconds
/// since the epoch.
pub fn get_event_time(event_record: &RecordNode) -> (r: Option<i64>)
    ensures
        r == event_time_of(event_record@),
{
    let k1 = chars_of("Event");
    let k2 = chars_of("System");
    let k3 = chars_of("TimeCreated_attributes");
    let k4 = chars_of("SystemTime");
    let nul = RecordNode::Null;
    let n1 = match crate::record::get_child(event_record, &k1) {
        Option::Some(c) => c,
        Option::None => &nul,
    };
    let n2 = match crate::record::get_child(n1, &k2) {
        Option::Some(c) => c,
        Option::None => &nul,
    };
    let n3 = match crate::record::get_child(n2, &k3) {
        Option::Some(c) => c,
        Option::None => &nul,
    };
    let n4 = match crate::record::get_child(n3, &k4) {
        Option::Some(c) => c,
        Option::None => &nul,
    };
    match n4 {
        RecordNode::Text(s) => {
            if s.as_str().unicode_len() == 0 {
                Option::None
            } else {
                crate::timefmt::str_time_to_datetime(s.as_str())
            }
        },
        _ => Option::None,
    }
}

} // verus!
