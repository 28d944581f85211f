//! Importing a model of the repository tree from the text of another format.
use crate::model::error::WrongNodeTypeError;
use crate::model::node::{insert_names, lookup};
use crate::model::node_type::NodeType;
use crate::model::qualified_path::{NormalizedPath, QPathView};
use crate::model::tree::{query_names, TreeDataModel};
use crate::text::{to_uppercase, uppercase_of};
use vstd::prelude::*;
use vstd::string::*;

verus! {

/// The formats a model can be imported from.
#[derive(Debug, Clone, Copy, PartialEq, Eq, Structural)]
pub enum ImportFormat {
    Native,
    Waffle,
    UVL,
}

/// The format that an uppercased name names: `NATIVE`, `WAFFLE` or `UVL`.
pub open spec fn format_named(upper: Seq<char>) -> Option<ImportFormat> {
    if upper == seq!['N', 'A', 'T', 'I', 'V', 'E'] {
        Some(ImportFormat::Native)
    } else if upper == seq!['W', 'A', 'F', 'F', 'L', 'E'] {
        Some(ImportFormat::Waffle)
    } else if upper == seq!['U', 'V', 'L'] {
        Some(ImportFormat::UVL)
    } else {
        None
    }
}

impl ImportFormat {
    /// The format named by `value`, in any case. `value` must name one.
    pub fn from_name(value: &str) -> (r: Self)
        requires
            format_named(uppercase_of(value@)) is Some,
        ensures
            Some(r) == format_named(uppercase_of(value@)),
    {
        match Self::try_from_name(value) {
            Some(f) => f,
            None => {
                proof {
                    assert(false);
                }
                ImportFormat::Native
            },
        }
    }

    /// The format named by `value`, in any case, or `None` where it names
    /// none.
    pub fn try_from_name(value: &str) -> (r: Option<Self>)
        ensures
            r == format_named(uppercase_of(value@)),
    {
        let upper = to_uppercase(value);
        let native = "NATIVE";
        let waffle = "WAFFLE";
        let uvl = "UVL";
        proof {
            reveal_strlit("NATIVE");
            reveal_strlit("WAFFLE");
            reveal_strlit("UVL");
            assert(native@ =~= seq!['N', 'A', 'T', 'I', 'V', 'E']);
            assert(waffle@ =~= seq!['W', 'A', 'F', 'F', 'L', 'E']);
            assert(uvl@ =~= seq!['U', 'V', 'L']);
        }
        if crate::text::str_eq(upper.as_str(), native) {
            Some(ImportFormat::Native)
        } else if crate::text::str_eq(upper.as_str(), waffle) {
            Some(ImportFormat::Waffle)
        } else if crate::text::str_eq(upper.as_str(), uvl) {
            Some(ImportFormat::UVL)
        } else {
            None
        }
    }
}

/// A reader of one import format: the paths that a text describes.
pub trait FormatParser {
    /// Whether the reader reads `data`.
    spec fn spec_reads(&self, data: Seq<char>) -> bool;

    /// The paths that `data` describes.
    spec fn spec_parse(&self, data: Seq<char>) -> Seq<QPathView>;

    fn parse(&self, data: &str) -> (r: Vec<NormalizedPath>)
        requires
            self.spec_reads(data@),
        ensures
            r@.map_values(|p: NormalizedPath| p@) == self.spec_parse(data@),
            forall|i: int| 0 <= i < r@.len() ==> (#[trigger] r@[i])@.segments.len() > 0,
    ;
}

/// The reader of the Waffle format. Its reading is not written yet: it
/// reads no text.
pub struct WaffleImporter;

impl FormatParser for WaffleImporter {
    open spec fn spec_reads(&self, data: Seq<char>) -> bool {
        false
    }

    open spec fn spec_parse(&self, data: Seq<char>) -> Seq<QPathView> {
        Seq::empty()
    }

    fn parse(&self, _data: &str) -> (r: Vec<NormalizedPath>) {
        Vec::new()
    }
}

/// Imports a model through a format reader.
pub struct ModelImporter<P: FormatParser> {
    parser: P,
}

impl ModelImporter<WaffleImporter> {
    /// An importer of `format`; only the Waffle format has a reader.
    pub fn new(format: ImportFormat) -> (r: Self)
        requires
            format == ImportFormat::Waffle,
    {
        ModelImporter { parser: WaffleImporter }
    }
}

impl<P: FormatParser> ModelImporter<P> {
    pub closed spec fn spec_parser(&self) -> P {
        self.parser
    }

    /// An importer that reads with `parser`.
    pub fn with_parser(parser: P) -> (r: Self)
        ensures
            r.spec_parser() == parser,
    {
        ModelImporter { parser }
    }

    /// The model of the paths that `data` describes: a fresh tree with each
    /// of them inserted, without branches.
    pub fn import(&self, data: &str) -> (r: Result<TreeDataModel, WrongNodeTypeError>)
        requires
            self.spec_parser().spec_reads(data@),
        ensures
            r matches Ok(m) && m.spec_root().spec_type() == NodeType::VirtualRoot
                && m.spec_branch_paths().len() == 0 && forall|k: int|
                0 <= k < self.spec_parser().spec_parse(data@).len() && insert_names(
                    query_names(self.spec_parser().spec_parse(data@)[k]),
                ).len() > 0 ==> #[trigger] lookup(
                    m.spec_root(),
                    insert_names(query_names(self.spec_parser().spec_parse(data@)[k])),
                ) is Some,
    {
        let paths = self.parser.parse(data);
        let ghost parsed = self.spec_parser().spec_parse(data@);
        let mut model = TreeDataModel::new();
        let mut i: usize = 0;
        while i < paths.len()
            invariant
                i <= paths@.len(),
                parsed == self.spec_parser().spec_parse(data@),
                paths@.map_values(|p: NormalizedPath| p@) == parsed,
                forall|k: int| 0 <= k < paths@.len() ==> (#[trigger] paths@[k])@.segments.len() > 0,
                model.spec_root().spec_type() == NodeType::VirtualRoot,
                model.spec_branch_paths().len() == 0,
                forall|k: int|
                    0 <= k < i && insert_names(query_names(parsed[k])).len() > 0 ==> #[trigger] lookup(
                        model.spec_root(),
                        insert_names(query_names(parsed[k])),
                    ) is Some,
            decreases paths@.len() - i,
        {
            let path = paths[i].clone();
            assert(path@ == parsed[i as int]);
            let ghost before = model.spec_root();
            model.insert_qualified_path(path, false);
            proof {
                assert forall|k: int|
                    0 <= k < i + 1 && insert_names(query_names(parsed[k])).len() > 0 implies #[trigger] lookup(
                        model.spec_root(),
                        insert_names(query_names(parsed[k])),
                    ) is Some by {
                    if k < i {
                        assert(lookup(before, insert_names(query_names(parsed[k]))) is Some);
                    }
                }
            }
            i = i + 1;
        }
        Ok(model)
    }
}

} // verus!
