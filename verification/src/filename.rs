//! Decoding of artifact file names: how a name's stem falls into fields, and
//! which of them name the image, the device and the version.

use vstd::prelude::*;
use vstd::string::*;
use crate::text::{has_extension, split, split_fields, stem, views, chars_of, find_last_dot};

verus! {

/// How the stem of a file name decomposes: the separator between its fields
/// and the positions of the three fields that are read.
#[derive(Debug, PartialEq, Eq)]
pub struct FilenameFieldLayout {
    pub separator: String,
    pub image_field_index: usize,
    pub device_field_index: usize,
    pub version_field_index: usize,
}

/// One catalog entry, decoded.
#[derive(Debug, PartialEq, Eq)]
pub struct Candidate {
    pub image: String,
    pub device: String,
    pub version: String,
    pub artifact_name: String,
}

/// A candidate as plain sequences of characters.
pub struct CandidateView {
    pub image: Seq<char>,
    pub device: Seq<char>,
    pub version: Seq<char>,
    pub artifact_name: Seq<char>,
}

impl View for Candidate {
    type V = CandidateView;

    open spec fn view(&self) -> CandidateView {
        CandidateView {
            image: self.image@,
            device: self.device@,
            version: self.version@,
            artifact_name: self.artifact_name@,
        }
    }
}

impl Clone for FilenameFieldLayout {
    fn clone(&self) -> (c: FilenameFieldLayout)
        ensures
            c == *self,
    {
        FilenameFieldLayout {
            separator: self.separator.clone(),
            image_field_index: self.image_field_index,
            device_field_index: self.device_field_index,
            version_field_index: self.version_field_index,
        }
    }
}

impl Clone for Candidate {
    fn clone(&self) -> (c: Candidate)
        ensures
            c == *self,
    {
        Candidate {
            image: self.image.clone(),
            device: self.device.clone(),
            version: self.version.clone(),
            artifact_name: self.artifact_name.clone(),
        }
    }
}

/// Why a file name could not be decoded.
#[derive(Debug, PartialEq, Eq)]
pub enum ParseError {
    /// The name has no extension, or its stem has too few fields.
    MalformedFilename,
}

/// The views of a vector of candidates, in order.
pub open spec fn candidate_views(v: Seq<Candidate>) -> Seq<CandidateView> {
    Seq::new(v.len(), |i: int| v[i]@)
}

/// The fields of a name: its stem, split on the layout's separator.
pub open spec fn fields_of(name: Seq<char>, layout: FilenameFieldLayout) -> Seq<Seq<char>> {
    split(stem(name), layout.separator@)
}

/// The name has an extension and its stem has each of the three fields.
pub open spec fn is_decodable(name: Seq<char>, layout: FilenameFieldLayout) -> bool {
    &&& has_extension(name)
    &&& layout.image_field_index < fields_of(name, layout).len()
    &&& layout.device_field_index < fields_of(name, layout).len()
    &&& layout.version_field_index < fields_of(name, layout).len()
}

/// What a name decodes to: the candidate read off its fields, or nothing
/// where the name is malformed.
pub open spec fn decode(name: Seq<char>, layout: FilenameFieldLayout) -> Option<CandidateView> {
    if is_decodable(name, layout) {
        Some(
            CandidateView {
                image: fields_of(name, layout)[layout.image_field_index as int],
                device: fields_of(name, layout)[layout.device_field_index as int],
                version: fields_of(name, layout)[layout.version_field_index as int],
                artifact_name: name,
            },
        )
    } else {
        None
    }
}

/// `decode` under a fixed layout, as a function of the name.
pub open spec fn decoder(layout: FilenameFieldLayout) -> spec_fn(Seq<char>) -> Option<
    CandidateView,
> {
    |name: Seq<char>| decode(name, layout)
}

/// The candidates of a catalog: its decodable names, decoded, in order.
/// Malformed names are left out.
pub open spec fn catalog(names: Seq<Seq<char>>, layout: FilenameFieldLayout) -> Seq<
    CandidateView,
> {
    names.filter_map(decoder(layout))
}

/// Decodes one file name under `layout`.
pub fn parse_filename(name: &str, layout: &FilenameFieldLayout) -> (r: Result<
    Candidate,
    ParseError,
>)
    ensures
        match r {
            Ok(c) => decode(name@, *layout) == Some(c@),
            Err(e) => decode(name@, *layout) is None && e == ParseError::MalformedFilename,
        },
{
    let chars: Vec<char> = chars_of(name);
    match find_last_dot(&chars) {
        None => Err(ParseError::MalformedFilename),
        Some(dot) => {
            let fields: Vec<String> = split_fields(
                name.substring_char(0, dot),
                layout.separator.as_str(),
            );
            assert(views(fields@) == fields_of(name@, *layout));
            if layout.image_field_index < fields.len() && layout.device_field_index
                < fields.len() && layout.version_field_index < fields.len() {
                Ok(
                    Candidate {
                        image: fields[layout.image_field_index].clone(),
                        device: fields[layout.device_field_index].clone(),
                        version: fields[layout.version_field_index].clone(),
                        artifact_name: String::from_str(name),
                    },
                )
            } else {
                Err(ParseError::MalformedFilename)
            }
        },
    }
}

/// Decodes every name of a catalog, leaving out the malformed ones.
pub fn parse_catalog(names: &Vec<String>, layout: &FilenameFieldLayout) -> (out: Vec<Candidate>)
    ensures
        candidate_views(out@) == catalog(views(names@), *layout),
{
    let mut out: Vec<Candidate> = Vec::new();
    let mut i: usize = 0;
    proof {
        assert(views(names@).take(0) =~= Seq::<Seq<char>>::empty());
        assert(candidate_views(out@) =~= Seq::<CandidateView>::empty());
    }
    while i < names.len()
        invariant
            i <= names.len(),
            candidate_views(out@) == catalog(views(names@).take(i as int), *layout),
        decreases names.len() - i,
    {
        let ghost before = out@;
        let ghost seen = views(names@).take(i as int);
        let ghost next = views(names@).take(i + 1);
        proof {
            assert(next.drop_last() =~= seen);
            assert(next.last() == names@[i as int]@);
        }
        match parse_filename(names[i].as_str(), layout) {
            Ok(c) => {
                out.push(c);
                proof {
                    assert(candidate_views(out@) =~= candidate_views(before) + seq![c@]);
                }
            },
            Err(_) => {},
        }
        i = i + 1;
    }
    proof {
        assert(views(names@).take(i as int) =~= views(names@));
    }
    out
}

} // verus!
