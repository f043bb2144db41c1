//! Components read from their parameter records: footprint, placement,
//! designator and comment switches, source references, and every parameter
//! no typed field consumes.

use vstd::prelude::*;

use crate::coord::{Coord, CoordPoint};
use crate::coord_text::{first_dot, parse_coord_loose, spec_coord_loose};
use crate::doc_codec::{parse_layer, spec_parse_layer};
use crate::parameter::{map_get, pairs_view, Entries, ParameterMap};
use crate::polygon_io::{bool_or, coord_or, coord_param, flag_or, i32_or, int_or, is_lit, opt_string};
use crate::sorted_entries::{entries_map, sorted_by_name, strictly_sorted};
use crate::text::{all_digits, chars_of, is_digit, owned, to_ascii_upper, trim, trim_chars, upper_seq};

verus! {

// ---------------------------------------------------------------------------
// Decimal text

/// Index of the first exponent mark (`e` or `E`).
pub open spec fn first_exp(s: Seq<char>) -> Option<int>
    decreases s.len(),
{
    if s.len() == 0 {
        None
    } else {
        match first_exp(s.drop_last()) {
            Some(i) => Some(i),
            None => if s.last() == 'e' || s.last() == 'E' {
                Some(s.len() - 1)
            } else {
                None
            },
        }
    }
}

/// Digits with at most one point, at least one digit in all.
pub open spec fn is_mantissa(m: Seq<char>) -> bool {
    match first_dot(m) {
        Some(d) => all_digits(m.take(d)) && all_digits(m.skip(d + 1)) && m.len() > 1,
        None => all_digits(m) && m.len() > 0,
    }
}

/// An optional sign, then one or more digits.
pub open spec fn is_exponent(x: Seq<char>) -> bool {
    let d = if x.len() > 0 && (x[0] == '+' || x[0] == '-') { x.drop_first() } else { x };
    d.len() > 0 && all_digits(d)
}

/// The text `str::parse::<f64>` accepts: an optional sign, then `inf`,
/// `infinity` or `nan` in any case, or a decimal number with an optional
/// point and an optional exponent.
pub open spec fn is_f64_text(s: Seq<char>) -> bool {
    let b = if s.len() > 0 && (s[0] == '+' || s[0] == '-') { s.drop_first() } else { s };
    let u = upper_seq(b);
    ||| u == "INF"@ || u == "INFINITY"@ || u == "NAN"@
    ||| match first_exp(b) {
        Some(e) => is_mantissa(b.take(e)) && is_exponent(b.skip(e + 1)),
        None => is_mantissa(b),
    }
}

proof fn lemma_first_mark(s: Seq<char>)
    ensures
        first_exp(s) matches Some(d) ==> 0 <= d < s.len() && (s[d] == 'e' || s[d] == 'E') && forall|j: int|
            0 <= j < d ==> s[j] != 'e' && s[j] != 'E',
        first_exp(s) is None ==> forall|j: int| 0 <= j < s.len() ==> s[j] != 'e' && s[j] != 'E',
        first_dot(s) matches Some(d) ==> 0 <= d < s.len() && s[d] == '.' && forall|j: int| 0 <= j < d ==> s[j] != '.',
        first_dot(s) is None ==> forall|j: int| 0 <= j < s.len() ==> s[j] != '.',
    decreases s.len(),
{
    if s.len() > 0 {
        lemma_first_mark(s.drop_last());
        assert forall|j: int| 0 <= j < s.len() - 1 implies s.drop_last()[j] == s[j] by {}
    }
}

fn all_digits_in(s: &Vec<char>, lo: usize, hi: usize) -> (r: bool)
    requires
        lo <= hi <= s@.len(),
    ensures
        r == all_digits(s@.subrange(lo as int, hi as int)),
{
    let ghost w = s@.subrange(lo as int, hi as int);
    let mut i = lo;
    while i < hi
        invariant
            lo <= i <= hi <= s@.len(),
            w == s@.subrange(lo as int, hi as int),
            forall|j: int| 0 <= j < i - lo ==> is_digit(#[trigger] w[j]),
        decreases hi - i,
    {
        assert(w[i - lo] == s@[i as int]);
        if !('0' <= s[i] && s[i] <= '9') {
            return false;
        }
        i += 1;
    }
    true
}

fn find_mark(s: &Vec<char>, lo: usize, hi: usize, exp: bool) -> (r: usize)
    requires
        lo <= hi <= s@.len(),
    ensures
        lo <= r <= hi,
        forall|j: int| lo <= j < r ==> if exp { s@[j] != 'e' && s@[j] != 'E' } else { s@[j] != '.' },
        r < hi ==> if exp { s@[r as int] == 'e' || s@[r as int] == 'E' } else { s@[r as int] == '.' },
{
    let mut i = lo;
    while i < hi
        invariant
            lo <= i <= hi <= s@.len(),
            forall|j: int| lo <= j < i ==> if exp { s@[j] != 'e' && s@[j] != 'E' } else { s@[j] != '.' },
        decreases hi - i,
    {
        let c = s[i];
        if exp {
            if c == 'e' || c == 'E' {
                return i;
            }
        } else if c == '.' {
            return i;
        }
        i += 1;
    }
    hi
}

proof fn lemma_mark_is_first(s: Seq<char>, k: int, exp: bool)
    requires
        0 <= k <= s.len(),
        forall|j: int| 0 <= j < k ==> if exp { s[j] != 'e' && s[j] != 'E' } else { s[j] != '.' },
        k < s.len() ==> if exp { s[k] == 'e' || s[k] == 'E' } else { s[k] == '.' },
    ensures
        exp ==> (if k < s.len() { first_exp(s) == Some(k) } else { first_exp(s) is None }),
        !exp ==> (if k < s.len() { first_dot(s) == Some(k) } else { first_dot(s) is None }),
{
    lemma_first_mark(s);
    if exp {
        if let Some(d) = first_exp(s) {
            assert(d >= k);
        }
    } else {
        if let Some(d) = first_dot(s) {
            assert(d >= k);
        }
    }
}

fn mantissa_ok(s: &Vec<char>, lo: usize, hi: usize) -> (r: bool)
    requires
        lo <= hi <= s@.len(),
    ensures
        r == is_mantissa(s@.subrange(lo as int, hi as int)),
{
    let ghost m = s@.subrange(lo as int, hi as int);
    let d = find_mark(s, lo, hi, false);
    proof {
        assert forall|j: int| 0 <= j < d - lo implies m[j] != '.' by {
            assert(m[j] == s@[j + lo]);
        }
        if d < hi {
            assert(m[d - lo] == s@[d as int]);
        }
        lemma_mark_is_first(m, d - lo, false);
    }
    if d < hi {
        assert(m.take(d - lo) =~= s@.subrange(lo as int, d as int));
        assert(m.skip(d - lo + 1) =~= s@.subrange(d + 1, hi as int));
        all_digits_in(s, lo, d) && all_digits_in(s, d + 1, hi) && hi - lo > 1
    } else {
        all_digits_in(s, lo, hi) && hi > lo
    }
}

/// Whether `str::parse::<f64>` accepts the text.
pub fn f64_text_ok(t: &str) -> (r: bool)
    ensures
        r == is_f64_text(t@),
{
    let s = chars_of(t);
    let n = s.len();
    let start: usize = if n > 0 && (s[0] == '+' || s[0] == '-') {
        1
    } else {
        0
    };
    let ghost b = s@.skip(start as int);
    assert(b =~= if s@.len() > 0 && (s@[0] == '+' || s@[0] == '-') { s@.drop_first() } else { s@ });
    let mut rest: Vec<char> = Vec::new();
    let mut i = start;
    while i < n
        invariant
            start <= i <= n,
            n == s@.len(),
            rest@ == s@.subrange(start as int, i as int),
        decreases n - i,
    {
        rest.push(s[i]);
        i += 1;
        assert(rest@ =~= s@.subrange(start as int, i as int));
    }
    assert(rest@ =~= b);
    let mut up = String::new();
    crate::text::push_chars(&mut up, rest.as_slice());
    let u = to_ascii_upper(up.as_str());
    if is_lit(&u, "INF") || is_lit(&u, "INFINITY") || is_lit(&u, "NAN") {
        return true;
    }
    let m = rest.len();
    let e = find_mark(&rest, 0, m, true);
    proof {
        lemma_mark_is_first(b, e as int, true);
    }
    if e < m {
        assert(b.take(e as int) =~= rest@.subrange(0, e as int));
        let x_lo = e + 1;
        let sign: usize = if x_lo < m && (rest[x_lo] == '+' || rest[x_lo] == '-') {
            1
        } else {
            0
        };
        let ghost x = b.skip(e + 1);
        assert(x =~= rest@.subrange(x_lo as int, m as int));
        assert(x.len() > 0 && (x[0] == '+' || x[0] == '-') ==> x.drop_first() =~= rest@.subrange(x_lo + 1, m as int));
        assert(!(x.len() > 0 && (x[0] == '+' || x[0] == '-')) ==> x =~= rest@.subrange(x_lo + sign, m as int));
        mantissa_ok(&rest, 0, e) && (x_lo + sign < m) && all_digits_in(&rest, x_lo + sign, m)
    } else {
        assert(b =~= rest@.subrange(0, m as int));
        mantissa_ok(&rest, 0, m)
    }
}

// ---------------------------------------------------------------------------
// The record

/// A component placed on the board, as its parameter record describes it.
/// The rotation is a decimal number, kept as written.
pub struct Component {
    pub name: String,
    pub pattern: Option<String>,
    pub description: Option<String>,
    pub height: Coord,
    pub comment: Option<String>,
    pub x: Coord,
    pub y: Coord,
    /// The trimmed `ROTATION` text, when it is a number.
    pub rotation_text: Option<String>,
    pub layer: i32,
    pub comment_on: bool,
    pub comment_auto_position: i32,
    pub name_on: bool,
    pub name_auto_position: i32,
    pub lock_strings: bool,
    pub component_kind: i32,
    pub enabled: bool,
    pub flipped_on_layer: bool,
    pub group_num: i32,
    pub is_bga: bool,
    pub channel_offset: i32,
    pub footprint_description: Option<String>,
    pub source_designator: Option<String>,
    pub source_lib_reference: Option<String>,
    pub source_component_library: Option<String>,
    pub source_description: Option<String>,
    pub source_footprint_library: Option<String>,
    pub source_unique_id: Option<String>,
    pub source_hierarchical_path: Option<String>,
    pub source_comp_design_item_id: Option<String>,
    pub item_guid: Option<String>,
    pub item_revision_guid: Option<String>,
    pub vault_guid: Option<String>,
    pub unique_id: Option<String>,
    pub model_hash: Option<String>,
    pub package_specific_hash: Option<String>,
    pub default_pcb_3d_model: Option<String>,
    /// The parameters no typed field consumes, sorted by name.
    pub additional_parameters: Vec<(String, String)>,
}

impl Component {
    /// Where the component is placed.
    pub fn origin(&self) -> (p: CoordPoint)
        ensures
            p.x == self.x && p.y == self.y,
    {
        CoordPoint::new(self.x, self.y)
    }
}

/// Whether an upper-cased key is always consumed by a component field.
pub open spec fn is_component_key(u: Seq<char>) -> bool {
    ||| u == "PATTERN"@ || u == "DESCRIPTION"@ || u == "COMMENT"@ || u == "LAYER"@
    ||| u == "COMMENTON"@ || u == "NAMEON"@ || u == "LOCKSTRINGS"@ || u == "ENABLED"@
    ||| u == "FLIPPEDONLAYER"@ || u == "ISBGA"@
    ||| u == "SOURCEDESIGNATOR"@ || u == "SOURCELIBREFERENCE"@ || u == "SOURCECOMPONENTLIBRARY"@
    ||| u == "SOURCEDESCRIPTION"@ || u == "SOURCEFOOTPRINTLIBRARY"@ || u == "SOURCEUNIQUEID"@
    ||| u == "SOURCEHIERARCHICALPATH"@ || u == "SOURCECOMPDESIGNITEMID"@ || u == "ITEMGUID"@
    ||| u == "REVISIONGUID"@ || u == "VAULTGUID"@ || u == "UNIQUEID"@ || u == "MODELHASH"@
    ||| u == "PACKAGESPECIFICHASH"@ || u == "DEFAULTPCB3DMODEL"@
}

/// Whether a coordinate is present under `key` and reads.
pub open spec fn coord_readable(e: Entries, key: Seq<char>) -> bool {
    match map_get(e, key) {
        Some(v) => spec_coord_loose(v) is Some,
        None => false,
    }
}

/// Whether a key is consumed: always for the keys above; `X`, `Y` and
/// `ROTATION` only when their value was read.
pub open spec fn component_consumes(e: Entries, u: Seq<char>) -> bool {
    ||| is_component_key(u)
    ||| (u == "X"@ && coord_readable(e, "X"@))
    ||| (u == "Y"@ && coord_readable(e, "Y"@))
    ||| (u == "ROTATION"@ && number_text(e, "ROTATION"@) is Some)
}

/// The entries no component field consumes, in order.
pub open spec fn component_extra(e: Entries, all: Entries) -> Entries
    decreases e.len(),
{
    if e.len() == 0 {
        e
    } else if component_consumes(all, upper_seq(e.last().0)) {
        component_extra(e.drop_last(), all)
    } else {
        component_extra(e.drop_last(), all).push(e.last())
    }
}

fn component_key(n: &str) -> (r: bool)
    ensures
        r == is_component_key(upper_seq(n@)),
{
    let u = to_ascii_upper(n);
    is_lit(&u, "PATTERN") || is_lit(&u, "DESCRIPTION") || is_lit(&u, "COMMENT") || is_lit(&u, "LAYER") || is_lit(
        &u,
        "COMMENTON",
    ) || is_lit(&u, "NAMEON") || is_lit(&u, "LOCKSTRINGS") || is_lit(&u, "ENABLED") || is_lit(&u, "FLIPPEDONLAYER")
        || is_lit(&u, "ISBGA") || is_lit(&u, "SOURCEDESIGNATOR") || is_lit(&u, "SOURCELIBREFERENCE") || is_lit(
        &u,
        "SOURCECOMPONENTLIBRARY",
    ) || is_lit(&u, "SOURCEDESCRIPTION") || is_lit(&u, "SOURCEFOOTPRINTLIBRARY") || is_lit(&u, "SOURCEUNIQUEID")
        || is_lit(&u, "SOURCEHIERARCHICALPATH") || is_lit(&u, "SOURCECOMPDESIGNITEMID") || is_lit(&u, "ITEMGUID")
        || is_lit(&u, "REVISIONGUID") || is_lit(&u, "VAULTGUID") || is_lit(&u, "UNIQUEID") || is_lit(&u, "MODELHASH")
        || is_lit(&u, "PACKAGESPECIFICHASH") || is_lit(&u, "DEFAULTPCB3DMODEL")
}

/// The trimmed text under `key` when it is a number.
pub open spec fn number_text(e: Entries, key: Seq<char>) -> Option<Seq<char>> {
    match map_get(e, key) {
        Some(v) => if is_f64_text(trim(v)) {
            Some(trim(v))
        } else {
            None
        },
        None => None,
    }
}

fn number_text_exec(params: &ParameterMap, key: &str) -> (r: Option<String>)
    ensures
        r matches Some(s) ==> number_text(params@, key@) == Some(s@),
        r is None ==> number_text(params@, key@) is None,
{
    match params.get(key) {
        Some(v) => {
            let c = chars_of(v);
            let t = trim_chars(&c);
            let mut s = String::new();
            crate::text::push_chars(&mut s, t.as_slice());
            if f64_text_ok(s.as_str()) {
                Some(s)
            } else {
                None
            }
        },
        None => None,
    }
}

fn coord_read(params: &ParameterMap, key: &str) -> (r: bool)
    ensures
        r == coord_readable(params@, key@),
{
    match params.get(key) {
        Some(v) => parse_coord_loose(v).is_some(),
        None => false,
    }
}

fn component_extra_params(params: &ParameterMap) -> (r: Vec<(String, String)>)
    ensures
        strictly_sorted(pairs_view(r@)),
        entries_map(pairs_view(r@)) == entries_map(component_extra(params@, params@)),
{
    let x_read = coord_read(params, "X");
    let y_read = coord_read(params, "Y");
    let rot_read = number_text_exec(params, "ROTATION").is_some();
    let es = params.entries();
    let mut v: Vec<(String, String)> = Vec::new();
    let mut i: usize = 0;
    while i < es.len()
        invariant
            i <= es@.len(),
            pairs_view(es@) == params@,
            x_read == coord_readable(params@, "X"@),
            y_read == coord_readable(params@, "Y"@),
            rot_read == (number_text(params@, "ROTATION"@) is Some),
            pairs_view(v@) == component_extra(pairs_view(es@).take(i as int), params@),
        decreases es@.len() - i,
    {
        let ghost e = pairs_view(es@);
        assert(e.take(i + 1).drop_last() =~= e.take(i as int));
        assert(e.take(i + 1).last() == e[i as int]);
        assert(e[i as int] == (es@[i as int].0@, es@[i as int].1@));
        let u = to_ascii_upper(es[i].0.as_str());
        let consumed = component_key(es[i].0.as_str()) || (is_lit(&u, "X") && x_read) || (is_lit(&u, "Y") && y_read)
            || (is_lit(&u, "ROTATION") && rot_read);
        if !consumed {
            let ghost before = v@;
            v.push((owned(es[i].0.as_str()), owned(es[i].1.as_str())));
            assert(pairs_view(v@) =~= pairs_view(before).push(e[i as int]));
        }
        i += 1;
    }
    assert(pairs_view(es@).take(es@.len() as int) =~= pairs_view(es@));
    sorted_by_name(&v)
}

/// An optional text field: the value under `key` when present.
pub open spec fn opt_from(t: Option<String>, e: Entries, key: Seq<char>) -> bool {
    match t {
        Some(s) => map_get(e, key) == Some(s@),
        None => map_get(e, key) is None,
    }
}

/// The fields of a component record.
pub open spec fn component_from(c: Component, e: Entries) -> bool {
    &&& c.name@ == (match map_get(e, "PATTERN"@) {
        Some(v) => v,
        None => Seq::<char>::empty(),
    })
    &&& opt_from(c.pattern, e, "PATTERN"@)
    &&& opt_from(c.description, e, "DESCRIPTION"@)
    &&& c.height.raw == coord_or(e, "HEIGHT"@, 0)
    &&& opt_from(c.comment, e, "COMMENT"@)
    &&& c.x.raw == coord_or(e, "X"@, 0)
    &&& c.y.raw == coord_or(e, "Y"@, 0)
    &&& (match c.rotation_text {
        Some(t) => number_text(e, "ROTATION"@) == Some(t@),
        None => number_text(e, "ROTATION"@) is None,
    })
    &&& c.layer == (match map_get(e, "LAYER"@) {
        Some(v) => spec_parse_layer(v),
        None => 0,
    })
    &&& c.comment_on == bool_or(e, "COMMENTON"@, false)
    &&& c.comment_auto_position == i32_or(e, "COMMENTAUTOPOSITION"@, 0)
    &&& c.name_on == bool_or(e, "NAMEON"@, false)
    &&& c.name_auto_position == i32_or(e, "NAMEAUTOPOSITION"@, 0)
    &&& c.lock_strings == bool_or(e, "LOCKSTRINGS"@, false)
    &&& c.component_kind == i32_or(e, "COMPONENTKINDVERSION2"@, i32_or(e, "COMPONENTKIND"@, 0))
    &&& c.enabled == bool_or(e, "ENABLED"@, true)
    &&& c.flipped_on_layer == bool_or(e, "FLIPPEDONLAYER"@, false)
    &&& c.group_num == i32_or(e, "GROUPNUM"@, 0)
    &&& c.is_bga == bool_or(e, "ISBGA"@, false)
    &&& c.channel_offset == i32_or(e, "CHANNELOFFSET"@, 0)
    &&& opt_from(c.footprint_description, e, "FOOTPRINTDESCRIPTION"@)
    &&& opt_from(c.source_designator, e, "SOURCEDESIGNATOR"@)
    &&& opt_from(c.source_lib_reference, e, "SOURCELIBREFERENCE"@)
    &&& opt_from(c.source_component_library, e, "SOURCECOMPONENTLIBRARY"@)
    &&& opt_from(c.source_description, e, "SOURCEDESCRIPTION"@)
    &&& opt_from(c.source_footprint_library, e, "SOURCEFOOTPRINTLIBRARY"@)
    &&& opt_from(c.source_unique_id, e, "SOURCEUNIQUEID"@)
    &&& opt_from(c.source_hierarchical_path, e, "SOURCEHIERARCHICALPATH"@)
    &&& opt_from(c.source_comp_design_item_id, e, "SOURCECOMPDESIGNITEMID"@)
    &&& opt_from(c.item_guid, e, "ITEMGUID"@)
    &&& opt_from(c.item_revision_guid, e, "REVISIONGUID"@)
    &&& opt_from(c.vault_guid, e, "VAULTGUID"@)
    &&& opt_from(c.unique_id, e, "UNIQUEID"@)
    &&& opt_from(c.model_hash, e, "MODELHASH"@)
    &&& opt_from(c.package_specific_hash, e, "PACKAGESPECIFICHASH"@)
    &&& opt_from(c.default_pcb_3d_model, e, "DEFAULTPCB3DMODEL"@)
    &&& strictly_sorted(pairs_view(c.additional_parameters@))
    &&& entries_map(pairs_view(c.additional_parameters@)) == entries_map(component_extra(e, e))
}

/// Decodes a component parameter record.
pub fn component_from_params(params: &ParameterMap) -> (c: Component)
    ensures
        component_from(c, params@),
{
    let name = match params.get("PATTERN") {
        Some(v) => owned(v),
        None => String::new(),
    };
    let layer = match params.get("LAYER") {
        Some(v) => parse_layer(v),
        None => 0,
    };
    let kind = int_or(params, "COMPONENTKINDVERSION2", int_or(params, "COMPONENTKIND", 0));
    Component {
        name,
        pattern: opt_string(params, "PATTERN"),
        description: opt_string(params, "DESCRIPTION"),
        height: coord_param(params, "HEIGHT", 0),
        comment: opt_string(params, "COMMENT"),
        x: coord_param(params, "X", 0),
        y: coord_param(params, "Y", 0),
        rotation_text: number_text_exec(params, "ROTATION"),
        layer,
        comment_on: flag_or(params, "COMMENTON", false),
        comment_auto_position: int_or(params, "COMMENTAUTOPOSITION", 0),
        name_on: flag_or(params, "NAMEON", false),
        name_auto_position: int_or(params, "NAMEAUTOPOSITION", 0),
        lock_strings: flag_or(params, "LOCKSTRINGS", false),
        component_kind: kind,
        enabled: flag_or(params, "ENABLED", true),
        flipped_on_layer: flag_or(params, "FLIPPEDONLAYER", false),
        group_num: int_or(params, "GROUPNUM", 0),
        is_bga: flag_or(params, "ISBGA", false),
        channel_offset: int_or(params, "CHANNELOFFSET", 0),
        footprint_description: opt_string(params, "FOOTPRINTDESCRIPTION"),
        source_designator: opt_string(params, "SOURCEDESIGNATOR"),
        source_lib_reference: opt_string(params, "SOURCELIBREFERENCE"),
        source_component_library: opt_string(params, "SOURCECOMPONENTLIBRARY"),
        source_description: opt_string(params, "SOURCEDESCRIPTION"),
        source_footprint_library: opt_string(params, "SOURCEFOOTPRINTLIBRARY"),
        source_unique_id: opt_string(params, "SOURCEUNIQUEID"),
        source_hierarchical_path: opt_string(params, "SOURCEHIERARCHICALPATH"),
        source_comp_design_item_id: opt_string(params, "SOURCECOMPDESIGNITEMID"),
        item_guid: opt_string(params, "ITEMGUID"),
        item_revision_guid: opt_string(params, "REVISIONGUID"),
        vault_guid: opt_string(params, "VAULTGUID"),
        unique_id: opt_string(params, "UNIQUEID"),
        model_hash: opt_string(params, "MODELHASH"),
        package_specific_hash: opt_string(params, "PACKAGESPECIFICHASH"),
        default_pcb_3d_model: opt_string(params, "DEFAULTPCB3DMODEL"),
        additional_parameters: component_extra_params(params),
    }
}

} // verus!
