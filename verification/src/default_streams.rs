//! Fixed data blocks the writer emits: the migration history of
//! `FileVersionInfo`, parameter blocks and the small default streams.

use vstd::prelude::*;

use crate::bytes::le32;
use crate::encoding::{encode, latin1_bytes};
use crate::text::{dec, join_with, push_char, push_dec, push_str};

verus! {

/// The code points of a string as decimal numbers joined by commas.
pub open spec fn codepoints(s: Seq<char>) -> Seq<char> {
    join_with(s.map_values(|c: char| dec((c as u32) as nat)), ',')
}

proof fn lemma_codepoints_step(s: Seq<char>, i: int)
    requires
        0 <= i < s.len(),
    ensures
        codepoints(s.take(i + 1)) == if i == 0 {
            dec((s[0] as u32) as nat)
        } else {
            codepoints(s.take(i)).push(',') + dec((s[i] as u32) as nat)
        },
{
    let a = s.take(i + 1).map_values(|c: char| dec((c as u32) as nat));
    let b = s.take(i).map_values(|c: char| dec((c as u32) as nat));
    assert(a.drop_last() =~= b);
    assert(a.last() == dec((s[i] as u32) as nat));
}

/// Appends the code points of `s` as decimal numbers joined by commas.
pub fn push_codepoints(out: &mut String, s: &str)
    ensures
        final(out)@ == old(out)@ + codepoints(s@),
{
    let v = crate::text::chars_of(s);
    let ghost start = out@;
    let mut i: usize = 0;
    assert(v@.take(0).map_values(|c: char| dec((c as u32) as nat)) =~= Seq::<Seq<char>>::empty());
    while i < v.len()
        invariant
            i <= v@.len(),
            v@ == s@,
            out@ == start + codepoints(v@.take(i as int)),
        decreases v@.len() - i,
    {
        proof {
            lemma_codepoints_step(v@, i as int);
        }
        if i > 0 {
            push_char(out, ',');
        }
        let cp: u32 = v[i] as u32;
        push_dec(out, cp as u64);
        i += 1;
        assert(out@ =~= start + codepoints(v@.take(i as int)));
    }
    assert(v@.take(v@.len() as int) =~= v@);
}

/// A length-prefixed, NUL-terminated text block: the length word counts the
/// terminating NUL.
pub open spec fn c_string_block(text: Seq<u8>) -> Seq<u8> {
    le32(((text.len() + 1) % 0x1_0000_0000) as int) + text + seq![0u8]
}

/// Frames `text` as a length-prefixed, NUL-terminated block.
pub fn c_string_block_bytes(text: &[u8]) -> (r: Vec<u8>)
    ensures
        r@ == c_string_block(text@),
{
    let mut out: Vec<u8> = Vec::new();
    let n: u128 = (text.len() as u128 + 1) % 0x1_0000_0000;
    crate::bytes::push_u32(&mut out, n as u32);
    let ghost head = out@;
    let mut i: usize = 0;
    while i < text.len()
        invariant
            i <= text@.len(),
            out@ == head + text@.take(i as int),
        decreases text@.len() - i,
    {
        out.push(text[i]);
        i += 1;
        assert(out@ =~= head + text@.take(i as int));
    }
    assert(text@.take(text@.len() as int) =~= text@);
    out.push(0u8);
    assert(out@ =~= c_string_block(text@));
    out
}

/// One migration-history entry: version, forward message, backward message.
pub type VersionEntry = (Seq<char>, Seq<char>, Seq<char>);

/// The `|VERi=..|FWDMSGi=..|BKMSGi=..` text of the first `k` entries, each
/// message given as its code points.
pub open spec fn version_entries_text(e: Seq<VersionEntry>, k: nat) -> Seq<char>
    decreases k,
{
    if k == 0 {
        seq![]
    } else {
        let i = (k - 1) as nat;
        version_entries_text(e, i) + version_entry_text(i, e[i as int])
    }
}

/// The `|VERi=..|FWDMSGi=..|BKMSGi=..` text of entry `i`.
pub open spec fn version_entry_text(i: nat, t: VersionEntry) -> Seq<char> {
    "|VER"@ + dec(i) + seq!['='] + codepoints(t.0) + "|FWDMSG"@ + dec(i) + seq!['='] + codepoints(t.1) + "|BKMSG"@
        + dec(i) + seq!['='] + codepoints(t.2)
}

fn push_version_entry(body: &mut String, i: usize, ver: &str, fwd: &str, bk: &str)
    ensures
        final(body)@ == old(body)@ + version_entry_text(i as nat, (ver@, fwd@, bk@)),
{
    push_str(body, "|VER");
    push_dec(body, i as u64);
    push_char(body, '=');
    push_codepoints(body, ver);
    push_str(body, "|FWDMSG");
    push_dec(body, i as u64);
    push_char(body, '=');
    push_codepoints(body, fwd);
    push_str(body, "|BKMSG");
    push_dec(body, i as u64);
    push_char(body, '=');
    push_codepoints(body, bk);
    assert(final(body)@ =~= old(body)@ + version_entry_text(i as nat, (ver@, fwd@, bk@)));
}

/// The `FileVersionInfo/Data` text of a migration history.
pub open spec fn version_info_text(e: Seq<VersionEntry>) -> Seq<char> {
    "|COUNT="@ + dec(e.len()) + version_entries_text(e, e.len())
}

/// `FileVersionInfo/Data` for a migration history: its text as a
/// length-prefixed, NUL-terminated block.
pub fn version_info_data(entries: &Vec<(&str, &str, &str)>) -> (r: Vec<u8>)
    ensures
        r@ == c_string_block(
            latin1_bytes(version_info_text(entries@.map_values(|t: (&str, &str, &str)| (t.0@, t.1@, t.2@)))),
        ),
{
    let ghost e = entries@.map_values(|t: (&str, &str, &str)| (t.0@, t.1@, t.2@));
    let mut body = String::new();
    push_str(&mut body, "|COUNT=");
    push_dec(&mut body, entries.len() as u64);
    let ghost head = body@;
    let mut i: usize = 0;
    while i < entries.len()
        invariant
            i <= entries@.len(),
            e == entries@.map_values(|t: (&str, &str, &str)| (t.0@, t.1@, t.2@)),
            body@ == head + version_entries_text(e, i as nat),
        decreases entries@.len() - i,
    {
        let (ver, fwd, bk) = entries[i];
        push_version_entry(&mut body, i, ver, fwd, bk);
        i += 1;
        assert(body@ =~= head + version_entries_text(e, i as nat));
    }
    assert(body@ =~= version_info_text(e));
    let bytes = encode(body.as_str());
    c_string_block_bytes(bytes.as_slice())
}

/// The migration history ending at Release 20.0. An outdated last entry
/// makes Altium report "File in Newer Format" on every open.
pub open spec fn version_history() -> Seq<VersionEntry> {
    seq![
        ("6.3"@, "<b>CAUTION</b> - Via connections to both hatched and solid signal layer polygons are now controlled by the polygon connect style rule. Re-pouring polygons may result in physical copper differences."@, ""@),
        ("6.6"@, ""@, "<b>CAUTION</b> - File contains Rounded Rectangular pads not supported by this version of the software. These pads have been converted to the Round shape."@),
        ("6.8"@, ""@, "<b>CAUTION</b> - File contains one or more Solid Regions containing boundary arcs. These arcs have been converted to linear segments that approximate the arc."@),
        ("6.8"@, ""@, "<b>CAUTION</b> - File contains one or more Component Bodies containing boundary arcs. These arcs have been converted to linear segments that approximate the arc."@),
        ("6.8"@, ""@, "<b>CAUTION</b> - File contains one or more Matched Length Rules. Rule atributes have been changed. Rule does not support pattern related attributes (amplitude, gap) anymore they are treated as tool attibutes instead.Rule is enhanced with subscoping attributes - allowing checking between nets in the same differential pair, between differential pairs as well as other electrical objects"@),
        ("6.8"@, ""@, "<b>CAUTION</b> - Board cutout objects introduced. Be aware that if your design contains board cutouts, they cannot be read in previous versions."@),
        ("6.8"@, ""@, "<b>CAUTION</b> - New type of text - barcode text was introduced. Be aware that if your design contains barcodes they cannot be read in previous versions."@),
        ("6.8"@, ""@, "<b>CAUTION</b> - Polygon/Layer dependent connect style rule for pads and vias was introduced. First scope should define pads/vias while 2nd scope should define polygons.Second scope is not readable in versions prior to 6.8 and is assumed to be 'All'."@),
        ("6.9"@, ""@, "<b>CAUTION</b> - File contains one or more Component Bodies containing embedded STEP models. These models have be discarded."@),
        ("6.9"@, ""@, "<b>CAUTION</b> - File contains one or more Components with pads with Pad Jumper IDs. The pads Pad Jumper ID fields have been discarded."@),
        ("7.0"@, ""@, "<b>CAUTION</b> - File may contain Component Bodies with linked STEP models. These models will be discarded."@),
        ("Winter 09"@, ""@, "<b>CAUTION</b> - Vias support varying diameters across layerstack. If this feature is used in design, extra values will be discarded."@),
        ("Winter 09"@, ""@, "<b>CAUTION</b> - File may contain pads with hole offsets. Hole offset information will be discarded."@),
        ("Winter 09"@, ""@, "<b>CAUTION</b> - File contains new manufacturing rules. Hole To Hole clearance, Minimum solder mask sliver, Silkscreen Over Exposed Copper and Silkscreen To Silkscreen Clearance rules were introduced in Altium Designer Winter 09.These rules will be discarded."@),
        ("Winter 09"@, ""@, "<b>CAUTION</b> - 3D models now support texturing.If used in design these textures will be discarded."@),
        ("Summer 09"@, "<b>CAUTION</b> - File contains old violation objects. These violations are no longer supported & will not be loaded. Please run DRC after opening this file in order to refresh the violations."@, "<b>CAUTION</b> - File contains new custom violations that replaced the old violation objects. These violations were introduced in Altium Designer Summer 09. The new custom violations will be discarded."@),
        ("Summer 09"@, ""@, "<b>CAUTION</b> - Support was added for 32 Mechanical Layers. Objects on mechanical layers beyond 16 have been moved to Mechanical Layer 16."@),
        ("Summer 09"@, "<b>CAUTION</b> - Existing testpoint rules and settings are used as fabrication testpoint information."@, "<b>CAUTION</b> - File contains assembly testpoint rules and/or settings.  Assembly testpoint information will be discarded."@),
        ("Release 10"@, ""@, "<b>CAUTION</b> - New Custom Grids and Guides were introduced. Be aware that your design might contain Custom Grids and Guides that cannot be read in previous versions. "@),
        ("Release 10"@, ""@, "<b>CAUTION</b> - New Structured Clusters were introduced. Be aware that your design might contain Structured Clusters that cannot be read in previous versions. "@),
        ("Release 10"@, ""@, "<b>CAUTION</b> - New PCB 3D Movie Manager was introduced. Be aware that your design might contain 3D PCB movie that cannot be read in previous versions. "@),
        ("Release 10 update 1"@, ""@, "<b>CAUTION</b> - New Clearance Rule subscopes targeting differential pairs  were introduced. Be aware that your design might contain Clearance Rules using those subscopes that cannot be read in previous versions. "@),
        ("Release 10 update 15"@, ""@, "<b>CAUTION</b> - Support of Solder Mask and Paste Mask expansions for Tracks, Arcs, Fills and Regions was introduced. Be aware that your design might contain Solder Mask and Paste Mask expansions for these types of primitives that cannot be read in the version of Altium Designer you are currently using. "@),
        ("Release 12"@, "<b>CAUTION</b> - Air Gap Width previously controlled by Clearance rule is now controlled by Polygon Connect Style rule's newly introduced Air Gap Width (set to default value). Suggest reviewing each Polygon Connect Style rule's Air Gap Width attribute for correctness."@, "<b>CAUTION</b> - Air Gap Width previously controlled by Clearance rule is now controlled by Polygon Connect Style rule's newly introduced Air Gap Width (set to default value). Suggest reviewing each Polygon Connect Style rule's Air Gap Width attribute for correctness."@),
        ("Release 13"@, "<b>CAUTION</b> - Silkscreen Over Component Pads Rules are converted to Silk To Solder Mask Clearance Rules. Suggest examining rule scopes for accuracy."@, "<b>CAUTION</b> - Silk To Solder Mask Clearance Rules are converted to Silkscreen Over Component Pads Rules."@),
        ("Release 14"@, ""@, "<b>CAUTION</b> - The Differential Pairs Routing rule added support for control of the width. Be aware that these widths must be manually entered as Width rules in this version."@),
        ("Release 15"@, ""@, "<b>CAUTION</b> - Support of separate solder masks for top & bottom of pads added."@),
        ("Release 15.1"@, ""@, "<b>CAUTION</b> - Support Multi-line PCB Text added."@),
        ("Release 16.0"@, ""@, "<b>CAUTION</b> - Pad/Via hole size tolerance value added."@),
        ("Release 17.0"@, ""@, "<b>CAUTION</b> - Component parameters added."@),
        ("Release 17.0"@, ""@, "<b>CAUTION</b> - Support of backdrilling"@),
        ("Release 17.1"@, ""@, "<b>CAUTION</b> - Support of waived violations"@),
        ("Release 17.1"@, ""@, "<b>CAUTION</b> - Support of object specific keepouts"@),
        ("Release 20.0"@, ""@, ""@),
    ]
}

fn version_history_table() -> (r: Vec<(&'static str, &'static str, &'static str)>)
    ensures
        r@.map_values(|t: (&str, &str, &str)| (t.0@, t.1@, t.2@)) == version_history(),
{
    let r = vec![
        ("6.3", "<b>CAUTION</b> - Via connections to both hatched and solid signal layer polygons are now controlled by the polygon connect style rule. Re-pouring polygons may result in physical copper differences.", ""),
        ("6.6", "", "<b>CAUTION</b> - File contains Rounded Rectangular pads not supported by this version of the software. These pads have been converted to the Round shape."),
        ("6.8", "", "<b>CAUTION</b> - File contains one or more Solid Regions containing boundary arcs. These arcs have been converted to linear segments that approximate the arc."),
        ("6.8", "", "<b>CAUTION</b> - File contains one or more Component Bodies containing boundary arcs. These arcs have been converted to linear segments that approximate the arc."),
        ("6.8", "", "<b>CAUTION</b> - File contains one or more Matched Length Rules. Rule atributes have been changed. Rule does not support pattern related attributes (amplitude, gap) anymore they are treated as tool attibutes instead.Rule is enhanced with subscoping attributes - allowing checking between nets in the same differential pair, between differential pairs as well as other electrical objects"),
        ("6.8", "", "<b>CAUTION</b> - Board cutout objects introduced. Be aware that if your design contains board cutouts, they cannot be read in previous versions."),
        ("6.8", "", "<b>CAUTION</b> - New type of text - barcode text was introduced. Be aware that if your design contains barcodes they cannot be read in previous versions."),
        ("6.8", "", "<b>CAUTION</b> - Polygon/Layer dependent connect style rule for pads and vias was introduced. First scope should define pads/vias while 2nd scope should define polygons.Second scope is not readable in versions prior to 6.8 and is assumed to be 'All'."),
        ("6.9", "", "<b>CAUTION</b> - File contains one or more Component Bodies containing embedded STEP models. These models have be discarded."),
        ("6.9", "", "<b>CAUTION</b> - File contains one or more Components with pads with Pad Jumper IDs. The pads Pad Jumper ID fields have been discarded."),
        ("7.0", "", "<b>CAUTION</b> - File may contain Component Bodies with linked STEP models. These models will be discarded."),
        ("Winter 09", "", "<b>CAUTION</b> - Vias support varying diameters across layerstack. If this feature is used in design, extra values will be discarded."),
        ("Winter 09", "", "<b>CAUTION</b> - File may contain pads with hole offsets. Hole offset information will be discarded."),
        ("Winter 09", "", "<b>CAUTION</b> - File contains new manufacturing rules. Hole To Hole clearance, Minimum solder mask sliver, Silkscreen Over Exposed Copper and Silkscreen To Silkscreen Clearance rules were introduced in Altium Designer Winter 09.These rules will be discarded."),
        ("Winter 09", "", "<b>CAUTION</b> - 3D models now support texturing.If used in design these textures will be discarded."),
        ("Summer 09", "<b>CAUTION</b> - File contains old violation objects. These violations are no longer supported & will not be loaded. Please run DRC after opening this file in order to refresh the violations.", "<b>CAUTION</b> - File contains new custom violations that replaced the old violation objects. These violations were introduced in Altium Designer Summer 09. The new custom violations will be discarded."),
        ("Summer 09", "", "<b>CAUTION</b> - Support was added for 32 Mechanical Layers. Objects on mechanical layers beyond 16 have been moved to Mechanical Layer 16."),
        ("Summer 09", "<b>CAUTION</b> - Existing testpoint rules and settings are used as fabrication testpoint information.", "<b>CAUTION</b> - File contains assembly testpoint rules and/or settings.  Assembly testpoint information will be discarded."),
        ("Release 10", "", "<b>CAUTION</b> - New Custom Grids and Guides were introduced. Be aware that your design might contain Custom Grids and Guides that cannot be read in previous versions. "),
        ("Release 10", "", "<b>CAUTION</b> - New Structured Clusters were introduced. Be aware that your design might contain Structured Clusters that cannot be read in previous versions. "),
        ("Release 10", "", "<b>CAUTION</b> - New PCB 3D Movie Manager was introduced. Be aware that your design might contain 3D PCB movie that cannot be read in previous versions. "),
        ("Release 10 update 1", "", "<b>CAUTION</b> - New Clearance Rule subscopes targeting differential pairs  were introduced. Be aware that your design might contain Clearance Rules using those subscopes that cannot be read in previous versions. "),
        ("Release 10 update 15", "", "<b>CAUTION</b> - Support of Solder Mask and Paste Mask expansions for Tracks, Arcs, Fills and Regions was introduced. Be aware that your design might contain Solder Mask and Paste Mask expansions for these types of primitives that cannot be read in the version of Altium Designer you are currently using. "),
        ("Release 12", "<b>CAUTION</b> - Air Gap Width previously controlled by Clearance rule is now controlled by Polygon Connect Style rule's newly introduced Air Gap Width (set to default value). Suggest reviewing each Polygon Connect Style rule's Air Gap Width attribute for correctness.", "<b>CAUTION</b> - Air Gap Width previously controlled by Clearance rule is now controlled by Polygon Connect Style rule's newly introduced Air Gap Width (set to default value). Suggest reviewing each Polygon Connect Style rule's Air Gap Width attribute for correctness."),
        ("Release 13", "<b>CAUTION</b> - Silkscreen Over Component Pads Rules are converted to Silk To Solder Mask Clearance Rules. Suggest examining rule scopes for accuracy.", "<b>CAUTION</b> - Silk To Solder Mask Clearance Rules are converted to Silkscreen Over Component Pads Rules."),
        ("Release 14", "", "<b>CAUTION</b> - The Differential Pairs Routing rule added support for control of the width. Be aware that these widths must be manually entered as Width rules in this version."),
        ("Release 15", "", "<b>CAUTION</b> - Support of separate solder masks for top & bottom of pads added."),
        ("Release 15.1", "", "<b>CAUTION</b> - Support Multi-line PCB Text added."),
        ("Release 16.0", "", "<b>CAUTION</b> - Pad/Via hole size tolerance value added."),
        ("Release 17.0", "", "<b>CAUTION</b> - Component parameters added."),
        ("Release 17.0", "", "<b>CAUTION</b> - Support of backdrilling"),
        ("Release 17.1", "", "<b>CAUTION</b> - Support of waived violations"),
        ("Release 17.1", "", "<b>CAUTION</b> - Support of object specific keepouts"),
        ("Release 20.0", "", ""),
    ];
    assert(r@.map_values(|t: (&str, &str, &str)| (t.0@, t.1@, t.2@)) =~= version_history());
    r
}

/// `FileVersionInfo/Data` as Altium writes it for a current file.
pub fn default_file_version_info_data() -> (r: Vec<u8>)
    ensures
        r@ == c_string_block(latin1_bytes(version_info_text(version_history()))),
{
    let t = version_history_table();
    version_info_data(&t)
}

} // verus!
