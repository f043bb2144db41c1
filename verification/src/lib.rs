//! Verified core of a reader/writer for Altium Designer PCB files: the
//! binary record layout, the parameter-block codecs, identity tables and
//! the small text formats that surround them.

pub mod binary;
pub mod body_io;
pub mod builders;
pub mod bytes;
pub mod color;
pub mod component_io;
pub mod coord;
pub mod coord_text;
pub mod default_streams;
pub mod defaults;
pub mod doc_codec;
pub mod doc_primitives;
pub mod doc_stubs;
pub mod embedded_io;
pub mod encoding;
pub mod flatten;
pub mod footprint_io;
pub mod guid_tables;
pub mod guids;
pub mod ieee754;
pub mod layer_colors;
pub mod layer_stack;
pub mod library_writer;
pub mod lint;
pub mod lint_footprint;
pub mod merge;
pub mod overline;
pub mod pad;
pub mod pad_io;
pub mod param_writers;
pub mod parameter;
pub mod pnp;
pub mod pnp_entries;
pub mod polygon_io;
pub mod primitive_io;
pub mod primitives;
pub mod reader_parts;
pub mod records;
pub mod region_geometry;
pub mod region_io;
pub mod rule;
pub mod shape_io;
pub mod sorted_entries;
pub mod svg;
pub mod text;
pub mod text_io;
