//! Default storages of a PCB document: the empty tables and option blocks
//! Altium expects, with their header counts and contents.

use vstd::prelude::*;

use crate::bytes::{le32, push_u32};
use crate::text::owned;
use vstd::string::StringSliceAdditionalSpecFns;

verus! {

/// The text of a parameter block: `|KEY=value` for each entry, as UTF-8.
pub open spec fn param_text(entries: Seq<(Seq<u8>, Seq<u8>)>) -> Seq<u8>
    decreases entries.len(),
{
    if entries.len() == 0 {
        seq![]
    } else {
        param_text(entries.drop_last()) + seq![124u8] + entries.last().0 + seq![61u8] + entries.last().1
    }
}

/// A parameter block as stored: its byte length (counting the terminating
/// NUL), the text, and the NUL.
pub open spec fn spec_param_block(entries: Seq<(Seq<u8>, Seq<u8>)>) -> Seq<u8> {
    le32(((param_text(entries).len() + 1) % 0x1_0000_0000) as int) + param_text(entries) + seq![0u8]
}

/// The UTF-8 views of string pairs.
pub open spec fn utf8_pairs(entries: Seq<(&str, &str)>) -> Seq<(Seq<u8>, Seq<u8>)> {
    entries.map_values(|p: (&str, &str)| (p.0.spec_bytes(), p.1.spec_bytes()))
}

/// A default parameter block holding the given entries in order.
pub fn default_param_block(entries: &[(&str, &str)]) -> (r: Vec<u8>)
    ensures
        r@ == spec_param_block(utf8_pairs(entries@)),
{
    let mut text: Vec<u8> = Vec::new();
    let mut i: usize = 0;
    while i < entries.len()
        invariant
            i <= entries@.len(),
            text@ == param_text(utf8_pairs(entries@.take(i as int))),
        decreases entries@.len() - i,
    {
        let (k, v) = entries[i];
        text.push(124u8);
        text.extend_from_slice(k.as_bytes());
        text.push(61u8);
        text.extend_from_slice(v.as_bytes());
        assert(utf8_pairs(entries@.take(i + 1)).drop_last() =~= utf8_pairs(entries@.take(i as int)));
        i += 1;
    }
    assert(entries@.take(entries@.len() as int) =~= entries@);
    let mut out: Vec<u8> = Vec::new();
    let n: u128 = (text.len() as u128 + 1) % 0x1_0000_0000;
    push_u32(&mut out, n as u32);
    out.extend_from_slice(text.as_slice());
    out.push(0u8);
    assert(out@ =~= spec_param_block(utf8_pairs(entries@)));
    out
}

/// The `LayerKindMapping` payload: a length word, `"1.0"` in UTF-16 with
/// its terminator, and eight zero bytes.
pub open spec fn spec_layer_kind_mapping() -> Seq<u8> {
    le32(8) + seq![0x31u8, 0x00u8, 0x2Eu8, 0x00u8, 0x30u8, 0x00u8, 0x00u8, 0x00u8] + seq![0u8, 0u8, 0u8, 0u8, 0u8, 0u8, 0u8, 0u8]
}

pub fn default_layer_kind_mapping_data() -> (r: Vec<u8>)
    ensures
        r@ == spec_layer_kind_mapping(),
{
    let mut out: Vec<u8> = Vec::new();
    push_u32(&mut out, 8);
    let tail: [u8; 16] = [0x31u8, 0x00u8, 0x2Eu8, 0x00u8, 0x30u8, 0x00u8, 0x00u8, 0x00u8, 0u8, 0u8, 0u8, 0u8, 0u8, 0u8, 0u8, 0u8];
    out.extend_from_slice(&tail);
    assert(out@ =~= spec_layer_kind_mapping());
    out
}


/// The entries of the `Advanced Placer Options6` block.
pub open spec fn placer_options() -> Seq<(&'static str, &'static str)> {
    seq![("RECORD", "AdvancedPlacerOptions"), ("PLACELARGECLEAR", "50mil"), ("PLACESMALLCLEAR", "20mil"), ("PLACEUSEROTATION", "TRUE"), ("PLACEUSELAYERSWAP", "FALSE"), ("PLACEBYPASSNET1", ""), ("PLACEBYPASSNET2", ""), ("PLACEUSEADVANCEDPLACE", "TRUE"), ("PLACEUSEGROUPING", "TRUE")]
}

/// The entries of the `Design Rule Checker Options6` block.
pub open spec fn drc_options() -> Seq<(&'static str, &'static str)> {
    seq![("RECORD", "DesignRuleCheckerOptions"), ("DOMAKEDRCFILE", "FALSE"), ("DOMAKEDRCERRORLIST", "FALSE"), ("DOSUBNETDETAILS", "TRUE"), ("REPORTFILENAME", ""), ("EXTERNALNETLISTFILENAME", ""), ("CHECKEXTERNALNETLIST", "FALSE"), ("MAXVIOLATIONCOUNT", "500"), ("REPORTDRILLEDSMTPADS", "FALSE"), ("REPORTINVALIDMULTILAYERPADS", "TRUE")]
}

/// The entries of the `Pin Swap Options6` block.
pub open spec fn pin_swap_options() -> Seq<(&'static str, &'static str)> {
    seq![("RECORD", "PinSwapOptions"), ("QUIET", "FALSE"), ("APPROXIMATEPINPOSITIONS", "FALSE"), ("ALLOWPARTIALLYROUTEDCONNECTIONS", "TRUE"), ("VIAPENALTYSTATE", "TRUE"), ("CROSSOVERRATIO", "50"), ("VIAPENALTYVALUE", "0"), ("IGNORENETS", ""), ("IGNORENETCLASSES", ""), ("IGNORECOMPONENTS", ""), ("IGNOREDIFFERENTIALPAIRS", ""), ("HEURISTICNAME", ""), ("HEURISTICONOFFSTATE", ""), ("HEURISTICWEIGHTVALUE", "")]
}

/// The entries of the `PadViaLibraryCache` block.
pub open spec fn pad_via_cache() -> Seq<(&'static str, &'static str)> {
    seq![("PADVIALIBRARY.LIBRARYID", "{00000000-0000-0000-0000-000000000001}"), ("PADVIALIBRARY.LIBRARYNAME", "<Local>"), ("PADVIALIBRARY.DISPLAYUNITS", "1")]
}

/// The storages a document gets when it carries none of its own: name,
/// header count and data, in the order Altium writes them.
pub open spec fn spec_root_stubs() -> Seq<(Seq<char>, u32, Seq<u8>)> {
    seq![
        ("Arcs6"@, 0u32, seq![]),
        ("Pads6"@, 0u32, seq![]),
        ("Vias6"@, 0u32, seq![]),
        ("Tracks6"@, 0u32, seq![]),
        ("Texts6"@, 0u32, seq![]),
        ("Fills6"@, 0u32, seq![]),
        ("Regions6"@, 0u32, seq![]),
        ("ComponentBodies6"@, 0u32, seq![]),
        ("Components6"@, 0u32, seq![]),
        ("Nets6"@, 0u32, seq![]),
        ("Polygons6"@, 0u32, seq![]),
        ("Rules6"@, 0u32, seq![]),
        ("Classes6"@, 0u32, seq![]),
        ("DifferentialPairs6"@, 0u32, seq![]),
        ("EmbeddedBoards6"@, 0u32, seq![]),
        ("WideStrings6"@, 0u32, seq![]),
        ("Dimensions6"@, 0u32, seq![]),
        ("Coordinates6"@, 0u32, seq![]),
        ("Connections6"@, 0u32, seq![]),
        ("FromTos6"@, 0u32, seq![]),
        ("Embeddeds6"@, 0u32, seq![]),
        ("ShapeBasedRegions6"@, 0u32, seq![]),
        ("ShapeBasedComponentBodies6"@, 0u32, seq![]),
        ("ModelsNoEmbed"@, 0u32, seq![]),
        ("Textures"@, 0u32, seq![]),
        ("ExtendedPrimitiveInformation"@, 0u32, seq![]),
        ("UnionNames"@, 0u32, seq![]),
        ("SmartUnions"@, 0u32, seq![]),
        ("BoardRegions"@, 0u32, seq![]),
        ("UniqueIDPrimitiveInformation"@, 0u32, seq![]),
        ("PinPairsSection"@, 0u32, seq![]),
        ("SignalClasses"@, 0u32, seq![]),
        ("PadViaLibrary"@, 0u32, seq![]),
        ("PadViaLibraryLinks"@, 0u32, seq![]),
        ("PrimitiveParameters"@, 0u32, seq![]),
        ("WaivedViolations"@, 0u32, seq![]),
        ("ConstraintManager"@, 0u32, seq![]),
        ("PrimitiveGuids"@, 0u32, seq![]),
        ("EmbeddedFonts6"@, 0u32, seq![]),
        ("Models"@, 0u32, seq![]),
        ("Advanced Placer Options6"@, 0u32, spec_param_block(utf8_pairs(placer_options()))),
        ("Design Rule Checker Options6"@, 0u32, spec_param_block(utf8_pairs(drc_options()))),
        ("Pin Swap Options6"@, 0u32, spec_param_block(utf8_pairs(pin_swap_options()))),
        ("PadViaLibraryCache"@, 0u32, spec_param_block(utf8_pairs(pad_via_cache()))),
        ("LayerKindMapping"@, 1u32, spec_layer_kind_mapping())
    ]
}

/// The view of a list of stubs.
pub open spec fn stubs_view(v: Seq<(String, u32, Vec<u8>)>) -> Seq<(Seq<char>, u32, Seq<u8>)> {
    v.map_values(|s: (String, u32, Vec<u8>)| (s.0@, s.1, s.2@))
}

fn push_stub(out: &mut Vec<(String, u32, Vec<u8>)>, name: &str, header: u32, data: Vec<u8>)
    ensures
        stubs_view(final(out)@) == stubs_view(old(out)@).push((name@, header, data@)),
{
    out.push((owned(name), header, data));
    assert(stubs_view(final(out)@) =~= stubs_view(old(out)@).push((name@, header, data@)));
}

/// The default storages of a document (see `spec_root_stubs`); the writer
/// emits each one the document does not already hold.
#[verifier::spinoff_prover]
#[verifier::rlimit(60)]
pub fn default_root_stubs() -> (r: Vec<(String, u32, Vec<u8>)>)
    ensures
        stubs_view(r@) == spec_root_stubs(),
{
    let mut out: Vec<(String, u32, Vec<u8>)> = Vec::new();
    push_stub(&mut out, "Arcs6", 0, Vec::new());
    push_stub(&mut out, "Pads6", 0, Vec::new());
    push_stub(&mut out, "Vias6", 0, Vec::new());
    push_stub(&mut out, "Tracks6", 0, Vec::new());
    push_stub(&mut out, "Texts6", 0, Vec::new());
    push_stub(&mut out, "Fills6", 0, Vec::new());
    push_stub(&mut out, "Regions6", 0, Vec::new());
    push_stub(&mut out, "ComponentBodies6", 0, Vec::new());
    push_stub(&mut out, "Components6", 0, Vec::new());
    push_stub(&mut out, "Nets6", 0, Vec::new());
    push_stub(&mut out, "Polygons6", 0, Vec::new());
    push_stub(&mut out, "Rules6", 0, Vec::new());
    push_stub(&mut out, "Classes6", 0, Vec::new());
    push_stub(&mut out, "DifferentialPairs6", 0, Vec::new());
    push_stub(&mut out, "EmbeddedBoards6", 0, Vec::new());
    push_stub(&mut out, "WideStrings6", 0, Vec::new());
    push_stub(&mut out, "Dimensions6", 0, Vec::new());
    push_stub(&mut out, "Coordinates6", 0, Vec::new());
    push_stub(&mut out, "Connections6", 0, Vec::new());
    push_stub(&mut out, "FromTos6", 0, Vec::new());
    push_stub(&mut out, "Embeddeds6", 0, Vec::new());
    push_stub(&mut out, "ShapeBasedRegions6", 0, Vec::new());
    push_stub(&mut out, "ShapeBasedComponentBodies6", 0, Vec::new());
    push_stub(&mut out, "ModelsNoEmbed", 0, Vec::new());
    push_stub(&mut out, "Textures", 0, Vec::new());
    push_stub(&mut out, "ExtendedPrimitiveInformation", 0, Vec::new());
    push_stub(&mut out, "UnionNames", 0, Vec::new());
    push_stub(&mut out, "SmartUnions", 0, Vec::new());
    push_stub(&mut out, "BoardRegions", 0, Vec::new());
    push_stub(&mut out, "UniqueIDPrimitiveInformation", 0, Vec::new());
    push_stub(&mut out, "PinPairsSection", 0, Vec::new());
    push_stub(&mut out, "SignalClasses", 0, Vec::new());
    push_stub(&mut out, "PadViaLibrary", 0, Vec::new());
    push_stub(&mut out, "PadViaLibraryLinks", 0, Vec::new());
    push_stub(&mut out, "PrimitiveParameters", 0, Vec::new());
    push_stub(&mut out, "WaivedViolations", 0, Vec::new());
    push_stub(&mut out, "ConstraintManager", 0, Vec::new());
    push_stub(&mut out, "PrimitiveGuids", 0, Vec::new());
    push_stub(&mut out, "EmbeddedFonts6", 0, Vec::new());
    push_stub(&mut out, "Models", 0, Vec::new());
    let entries: [(&str, &str); 9] = [("RECORD", "AdvancedPlacerOptions"), ("PLACELARGECLEAR", "50mil"), ("PLACESMALLCLEAR", "20mil"), ("PLACEUSEROTATION", "TRUE"), ("PLACEUSELAYERSWAP", "FALSE"), ("PLACEBYPASSNET1", ""), ("PLACEBYPASSNET2", ""), ("PLACEUSEADVANCEDPLACE", "TRUE"), ("PLACEUSEGROUPING", "TRUE")];
    assert(entries@ =~= placer_options());
    push_stub(&mut out, "Advanced Placer Options6", 0, default_param_block(&entries));
    let entries: [(&str, &str); 10] = [("RECORD", "DesignRuleCheckerOptions"), ("DOMAKEDRCFILE", "FALSE"), ("DOMAKEDRCERRORLIST", "FALSE"), ("DOSUBNETDETAILS", "TRUE"), ("REPORTFILENAME", ""), ("EXTERNALNETLISTFILENAME", ""), ("CHECKEXTERNALNETLIST", "FALSE"), ("MAXVIOLATIONCOUNT", "500"), ("REPORTDRILLEDSMTPADS", "FALSE"), ("REPORTINVALIDMULTILAYERPADS", "TRUE")];
    assert(entries@ =~= drc_options());
    push_stub(&mut out, "Design Rule Checker Options6", 0, default_param_block(&entries));
    let entries: [(&str, &str); 14] = [("RECORD", "PinSwapOptions"), ("QUIET", "FALSE"), ("APPROXIMATEPINPOSITIONS", "FALSE"), ("ALLOWPARTIALLYROUTEDCONNECTIONS", "TRUE"), ("VIAPENALTYSTATE", "TRUE"), ("CROSSOVERRATIO", "50"), ("VIAPENALTYVALUE", "0"), ("IGNORENETS", ""), ("IGNORENETCLASSES", ""), ("IGNORECOMPONENTS", ""), ("IGNOREDIFFERENTIALPAIRS", ""), ("HEURISTICNAME", ""), ("HEURISTICONOFFSTATE", ""), ("HEURISTICWEIGHTVALUE", "")];
    assert(entries@ =~= pin_swap_options());
    push_stub(&mut out, "Pin Swap Options6", 0, default_param_block(&entries));
    let entries: [(&str, &str); 3] = [("PADVIALIBRARY.LIBRARYID", "{00000000-0000-0000-0000-000000000001}"), ("PADVIALIBRARY.LIBRARYNAME", "<Local>"), ("PADVIALIBRARY.DISPLAYUNITS", "1")];
    assert(entries@ =~= pad_via_cache());
    push_stub(&mut out, "PadViaLibraryCache", 0, default_param_block(&entries));
    push_stub(&mut out, "LayerKindMapping", 1, default_layer_kind_mapping_data());
    assert(stubs_view(out@) =~= spec_root_stubs());
    out
}


/// The entries of the library's `PadViaLibrary` block.
pub open spec fn pad_via_library_entries() -> Seq<(&'static str, &'static str)> {
    seq![
        ("PADVIALIBRARY.LIBRARYID", "{4F499044-D65D-4DA6-9273-7355F5C6609C}"),
        ("PADVIALIBRARY.LIBRARYNAME", "<Local>"),
        ("PADVIALIBRARY.DISPLAYUNITS", "1"),
    ]
}

/// The `PadViaLibrary/Data` payload of a library: the local pad-via library
/// reference as a parameter block.
pub fn default_pad_via_library_data() -> (r: Vec<u8>)
    ensures
        r@ == spec_param_block(utf8_pairs(pad_via_library_entries())),
{
    let entries: [(&str, &str); 3] = [
        ("PADVIALIBRARY.LIBRARYID", "{4F499044-D65D-4DA6-9273-7355F5C6609C}"),
        ("PADVIALIBRARY.LIBRARYNAME", "<Local>"),
        ("PADVIALIBRARY.DISPLAYUNITS", "1"),
    ];
    assert(entries@ =~= pad_via_library_entries());
    default_param_block(&entries)
}

// ---------------------------------------------------------------------------
// The default streams of a document file

/// The streams of the default storages the file lacks: for each default
/// storage whose header the document does not hold and which the file has
/// no storage for, its header count and its data.
pub open spec fn stub_streams(
    stubs: Seq<(Seq<char>, u32, Seq<u8>)>,
    doc: Seq<Seq<char>>,
    storages: Seq<Seq<char>>,
) -> Seq<(Seq<char>, Seq<u8>)>
    decreases stubs.len(),
{
    if stubs.len() == 0 {
        seq![]
    } else {
        let rest = stub_streams(stubs.drop_last(), doc, storages);
        let (path, header, data) = stubs.last();
        if doc.contains(path + "/Header"@) || storages.contains(path) {
            rest
        } else {
            rest + seq![(path + "/Header"@, le32(header as int)), (path + "/Data"@, data)]
        }
    }
}

/// The streams a document file gets besides the document's own: the
/// `FileVersionInfo` header and data it lacks, the default storages it
/// lacks (see [`stub_streams`]), and an empty legacy `Texts` storage unless
/// the file has one. `doc` lists the document's stream paths, `storages`
/// the storages the file already has.
pub open spec fn spec_default_root_streams(doc: Seq<Seq<char>>, storages: Seq<Seq<char>>) -> Seq<(Seq<char>, Seq<u8>)> {
    let a: Seq<(Seq<char>, Seq<u8>)> = if doc.contains("FileVersionInfo/Header"@) {
        seq![]
    } else {
        seq![("FileVersionInfo/Header"@, le32(1))]
    };
    let b: Seq<(Seq<char>, Seq<u8>)> = if doc.contains("FileVersionInfo/Data"@) {
        seq![]
    } else {
        seq![
            ("FileVersionInfo/Data"@, crate::default_streams::c_string_block(
                crate::encoding::latin1_bytes(
                    crate::default_streams::version_info_text(crate::default_streams::version_history()),
                ),
            )),
        ]
    };
    let d: Seq<(Seq<char>, Seq<u8>)> = if storages.contains("Texts"@) {
        seq![]
    } else {
        seq![("Texts/Header"@, le32(3)), ("Texts/Data"@, seq![])]
    };
    a + b + stub_streams(spec_root_stubs(), doc, storages) + d
}

/// The view of a list of stream paths and contents.
pub open spec fn streams_view(v: Seq<(String, Vec<u8>)>) -> Seq<(Seq<char>, Seq<u8>)> {
    v.map_values(|s: (String, Vec<u8>)| (s.0@, s.1@))
}

fn has_string(v: &[String], x: &str) -> (r: bool)
    ensures
        r == v@.map_values(|s: String| s@).contains(x@),
{
    let ghost sv = v@.map_values(|s: String| s@);
    let mut i: usize = 0;
    while i < v.len()
        invariant
            i <= v@.len(),
            sv == v@.map_values(|s: String| s@),
            forall|j: int| 0 <= j < i ==> sv[j] != x@,
        decreases v@.len() - i,
    {
        if crate::text::str_eq(v[i].as_str(), x) {
            assert(sv[i as int] == x@);
            return true;
        }
        i += 1;
    }
    false
}

fn u32_bytes(n: u32) -> (r: Vec<u8>)
    ensures
        r@ == le32(n as int),
{
    let mut v: Vec<u8> = Vec::new();
    push_u32(&mut v, n);
    assert(v@ =~= le32(n as int));
    v
}

fn push_stream(out: &mut Vec<(String, Vec<u8>)>, path: String, data: Vec<u8>)
    ensures
        streams_view(final(out)@) == streams_view(old(out)@).push((path@, data@)),
{
    let ghost p = path@;
    let ghost d = data@;
    out.push((path, data));
    assert(streams_view(final(out)@) =~= streams_view(old(out)@).push((p, d)));
}

/// The streams a document file gets besides the document's own (see
/// [`spec_default_root_streams`]).
pub fn default_root_streams(doc: &[String], storages: &[String]) -> (r: Vec<(String, Vec<u8>)>)
    ensures
        streams_view(r@) == spec_default_root_streams(
            doc@.map_values(|s: String| s@),
            storages@.map_values(|s: String| s@),
        ),
{
    let ghost dv = doc@.map_values(|s: String| s@);
    let ghost sv = storages@.map_values(|s: String| s@);
    let mut out: Vec<(String, Vec<u8>)> = Vec::new();
    assert(streams_view(out@) =~= Seq::<(Seq<char>, Seq<u8>)>::empty());
    if !has_string(doc, "FileVersionInfo/Header") {
        push_stream(&mut out, owned("FileVersionInfo/Header"), u32_bytes(1));
    }
    if !has_string(doc, "FileVersionInfo/Data") {
        push_stream(&mut out, owned("FileVersionInfo/Data"), crate::default_streams::default_file_version_info_data());
    }
    let ghost head = streams_view(out@);
    let stubs = default_root_stubs();
    let ghost st = stubs_view(stubs@);
    let mut i: usize = 0;
    assert(st.take(0) =~= Seq::<(Seq<char>, u32, Seq<u8>)>::empty());
    assert(head + stub_streams(st.take(0), dv, sv) =~= head);
    while i < stubs.len()
        invariant
            i <= stubs@.len(),
            st == stubs_view(stubs@),
            st == spec_root_stubs(),
            dv == doc@.map_values(|s: String| s@),
            sv == storages@.map_values(|s: String| s@),
            streams_view(out@) == head + stub_streams(st.take(i as int), dv, sv),
        decreases stubs@.len() - i,
    {
        assert(st.take(i + 1).drop_last() =~= st.take(i as int));
        assert(st.take(i + 1).last() == st[i as int]);
        let path = &stubs[i].0;
        assert(st[i as int] == (path@, stubs@[i as int].1, stubs@[i as int].2@));
        let mut hk = owned(path.as_str());
        crate::text::push_str(&mut hk, "/Header");
        if !has_string(doc, hk.as_str()) && !has_string(storages, path.as_str()) {
            let mut dk = owned(path.as_str());
            crate::text::push_str(&mut dk, "/Data");
            let ghost before = streams_view(out@);
            let data = vstd::slice::slice_to_vec(stubs[i].2.as_slice());
            push_stream(&mut out, hk, u32_bytes(stubs[i].1));
            push_stream(&mut out, dk, data);
            assert(streams_view(out@) =~= before + seq![
                (path@ + "/Header"@, le32(stubs@[i as int].1 as int)),
                (path@ + "/Data"@, stubs@[i as int].2@),
            ]);
        }
        i += 1;
    }
    assert(st.take(stubs@.len() as int) =~= st);
    let ghost mid = streams_view(out@);
    if !has_string(storages, "Texts") {
        push_stream(&mut out, owned("Texts/Header"), u32_bytes(3));
        push_stream(&mut out, owned("Texts/Data"), Vec::new());
    }
    assert(streams_view(out@) =~= spec_default_root_streams(dv, sv));
    out
}

} // verus!
