//! Source-map decoding: a raw byte body becomes the flat list of logical
//! source paths and their optional inlined contents, or `Unsupported`.
//! Regular maps are taken as they are; indexed maps are flattened section
//! by section in verified code, with the inlined section contents
//! preserved; every other shape is rejected.

use vstd::prelude::*;

verus! {

#[verifier::external_type_specification]
#[verifier::external_body]
pub struct ExSourceMap(sourcemap::SourceMap);

#[verifier::external_type_specification]
#[verifier::external_body]
pub struct ExSourceMapIndex(sourcemap::SourceMapIndex);

#[verifier::external_type_specification]
#[verifier::external_body]
pub struct ExDecodedMap(sourcemap::DecodedMap);

/// The logical source paths a decoded map holds, in order.
pub uninterp spec fn map_sources(sm: sourcemap::SourceMap) -> Seq<Seq<char>>;

/// The inlined contents a decoded map holds: one entry per source, in the
/// same order, absent where the map embeds no text for that source.
pub uninterp spec fn map_source_contents(sm: sourcemap::SourceMap) -> Seq<Option<Seq<char>>>;

/// Do the bytes decode to a regular (flat) source map? The decode is a
/// pure parse, a function of the bytes alone.
pub uninterp spec fn decodes_flat(b: Seq<u8>) -> bool;

/// Do the bytes decode to a source-map index (a sectioned map)?
pub uninterp spec fn decodes_indexed(b: Seq<u8>) -> bool;

/// The source paths of the regular map the bytes decode to, where
/// `decodes_flat` holds.
pub uninterp spec fn flat_sources_of(b: Seq<u8>) -> Seq<Seq<char>>;

/// The optional inlined contents of the regular map the bytes decode to,
/// where `decodes_flat` holds.
pub uninterp spec fn flat_contents_of(b: Seq<u8>) -> Seq<Option<Seq<char>>>;

/// The shapes of a decoded map that this crate tells apart.
enum MapShape {
    Flat(sourcemap::SourceMap),
    Sectioned(sourcemap::SourceMapIndex),
    Other,
}

/// Relies on sourcemap::decode_slice and the variants of
/// sourcemap::DecodedMap: the decode is a pure parse of the byte slice, so
/// its outcome — which variant, and for a regular map its source and
/// content lists — is a function of the bytes alone. A failed decode and
/// any other variant (a Hermes map) fall to `Other`.
#[verifier::external_body]
fn decode_classified(b: &[u8]) -> (r: MapShape)
    ensures
        r is Flat <==> decodes_flat(b@),
        r is Sectioned <==> decodes_indexed(b@),
        r matches MapShape::Flat(sm) ==> map_sources(sm) == flat_sources_of(b@) && map_source_contents(sm)
            == flat_contents_of(b@),
{
    match sourcemap::decode_slice(b) {
        Ok(sourcemap::DecodedMap::Regular(sm)) => MapShape::Flat(sm),
        Ok(sourcemap::DecodedMap::Index(ix)) => MapShape::Sectioned(ix),
        _ => MapShape::Other,
    }
}

/// Relies on the variants of sourcemap::DecodedMap: one arm per variant,
/// moving the payload; the Hermes variant falls to `Other`.
#[verifier::external_body]
fn classify_map(d: sourcemap::DecodedMap) -> (r: MapShape) {
    match d {
        sourcemap::DecodedMap::Regular(sm) => MapShape::Flat(sm),
        sourcemap::DecodedMap::Index(ix) => MapShape::Sectioned(ix),
        _ => MapShape::Other,
    }
}

/// Relies on SourceMapIndex::sections and SourceMapSection::get_sourcemap:
/// the sections' decoded maps, cloned, in section order; absent where a
/// section's map is unresolved.
#[verifier::external_body]
fn section_maps(ix: &sourcemap::SourceMapIndex) -> (r: Vec<Option<sourcemap::DecodedMap>>) {
    ix.sections().map(|s| s.get_sourcemap().cloned()).collect()
}

/// Relies on SourceMap::sources: the source paths, in order, a function of
/// the map value alone.
#[verifier::external_body]
fn sources_of(sm: &sourcemap::SourceMap) -> (r: Vec<String>)
    ensures
        r.deep_view() == map_sources(*sm),
{
    sm.sources().map(|s| s.to_string()).collect()
}

/// Relies on SourceMap::source_contents: one entry per source, in order —
/// the inlined text where the map holds one, absent otherwise. Both
/// iterators run over the same source list, so the counts agree.
#[verifier::external_body]
fn source_contents_of(sm: &sourcemap::SourceMap) -> (r: Vec<Option<String>>)
    ensures
        r.deep_view() == map_source_contents(*sm),
        r@.len() == map_sources(*sm).len(),
{
    sm.source_contents().map(|c| c.map(|s| s.to_string())).collect()
}

/// A decoded, flattened map: the ordered logical source paths and the
/// parallel ordered optional inlined contents.
pub struct SourceEntries {
    pub sources: Vec<String>,
    pub contents: Vec<Option<String>>,
}

impl SourceEntries {
    /// The two lists run in parallel: one content entry per source.
    pub open spec fn wf(&self) -> bool {
        self.sources@.len() == self.contents@.len()
    }
}

/// A body that this crate cannot turn into a flat map: malformed input, a
/// shape that is neither regular nor indexed, or an index with an
/// unresolved or unsupported section.
#[derive(Debug, PartialEq, Eq, Structural)]
pub enum MapError {
    Unsupported,
}

/// The flat entries of a regular map value.
pub fn entries_of(sm: &sourcemap::SourceMap) -> (r: SourceEntries)
    ensures
        r.wf(),
        r.sources.deep_view() == map_sources(*sm),
        r.contents.deep_view() == map_source_contents(*sm),
{
    let sources = sources_of(sm);
    let contents = source_contents_of(sm);
    proof {
        assert(sources.deep_view().len() == sources@.len());
        assert(contents.deep_view().len() == contents@.len());
    }
    SourceEntries { sources, contents }
}

/// Flatten an index: the sections' entries, in section order, nested
/// indices expanded in place. A section whose map is unresolved or of
/// another shape makes the whole index `Unsupported`.
fn flatten_index(ix: sourcemap::SourceMapIndex) -> (r: Result<SourceEntries, MapError>)
    ensures
        r matches Ok(entries) ==> entries.wf(),
        r matches Err(e) ==> e == MapError::Unsupported,
{
    let mut stack: Vec<Option<sourcemap::DecodedMap>> = Vec::new();
    let mut first = section_maps(&ix);
    while first.len() > 0
        decreases first@.len(),
    {
        let m = first.pop().unwrap();
        stack.push(m);
    }
    let mut sources: Vec<String> = Vec::new();
    let mut contents: Vec<Option<String>> = Vec::new();
    let mut budget: usize = usize::MAX;
    while stack.len() > 0
        invariant
            sources@.len() == contents@.len(),
        decreases budget,
    {
        if budget == 0 {
            return Err(MapError::Unsupported);
        }
        budget -= 1;
        let next = stack.pop().unwrap();
        match next {
            None => {
                return Err(MapError::Unsupported);
            },
            Some(d) => match classify_map(d) {
                MapShape::Flat(sm) => {
                    let mut e = entries_of(&sm);
                    sources.append(&mut e.sources);
                    contents.append(&mut e.contents);
                },
                MapShape::Sectioned(inner) => {
                    let mut inner_maps = section_maps(&inner);
                    while inner_maps.len() > 0
                        decreases inner_maps@.len(),
                    {
                        let m = inner_maps.pop().unwrap();
                        stack.push(m);
                    }
                },
                MapShape::Other => {
                    return Err(MapError::Unsupported);
                },
            },
        }
    }
    Ok(SourceEntries { sources, contents })
}

/// Decode one raw map body. A regular map is returned as it is: `Ok`,
/// holding exactly the source and content lists the bytes decode to. An
/// indexed map is flattened section by section with its inlined contents
/// preserved. Bytes that decode to neither — including bodies the decoder
/// rejects — are `Unsupported`. Whatever comes back on success is well
/// formed: one content entry per source.
pub fn load_from_slice(b: &[u8]) -> (r: Result<SourceEntries, MapError>)
    ensures
        r matches Ok(entries) ==> entries.wf(),
        r matches Err(e) ==> e == MapError::Unsupported,
        decodes_flat(b@) ==> (r matches Ok(entries) && entries.sources.deep_view()
            == flat_sources_of(b@) && entries.contents.deep_view() == flat_contents_of(b@)),
        !decodes_flat(b@) && !decodes_indexed(b@) ==> r is Err,
{
    match decode_classified(b) {
        MapShape::Flat(sm) => Ok(entries_of(&sm)),
        MapShape::Sectioned(ix) => flatten_index(ix),
        MapShape::Other => Err(MapError::Unsupported),
    }
}

} // verus!
