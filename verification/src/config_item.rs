//! Leaf configuration items of the schema-driven configuration data, and
//! the naming convention that ties a configuration file to its schema
//! file.

use vstd::prelude::*;

use vstd::string::StringSliceAdditionalSpecFns;

use crate::text::{bytes_to_string, copy_range, lemma_rfind, rfind_byte, spec_rfind};

verus! {

/// Array item: scalar values stored as strings.
#[derive(Debug, Clone)]
pub struct ArrayItem {
    /// Array element type name.
    pub element_type: String,
    /// Array values.
    pub values: Vec<String>,
    /// Default values.
    pub default: Vec<String>,
}

/// Enum item: variant labels and the selected index.
#[derive(Debug, Clone)]
pub struct EnumItem {
    /// List of variant labels.
    pub variants: Vec<String>,
    /// Selected variant index.
    pub value: Option<usize>,
    /// Default variant index.
    pub default: Option<usize>,
}

impl EnumItem {
    /// The selected variant's text: the label at the selected index, when
    /// a selection exists and lies within the labels.
    pub fn value_str(&self) -> (r: Option<&str>)
        ensures
            r matches Some(s) ==> (self.value matches Some(i) && i < self.variants@.len() && s@
                == self.variants@[i as int]@),
            r is None <==> (self.value is None || (self.value matches Some(i) && i
                >= self.variants@.len())),
    {
        match self.value {
            Some(idx) => {
                if idx < self.variants.len() {
                    Some(self.variants[idx].as_str())
                } else {
                    None
                }
            },
            None => None,
        }
    }
}

/// The last `.`-separated piece of the file name dropped when there are at
/// least two, as the schema naming convention asks.
pub open spec fn spec_drop_last_ext(name: Seq<u8>) -> Seq<u8> {
    match spec_rfind(name, 0x2e) {
        Some(k) => name.take(k),
        None => name,
    }
}

/// The schema-file suffix, `-schema.json`.
pub open spec fn spec_schema_suffix() -> Seq<u8> {
    seq![0x2du8, 0x73, 0x63, 0x68, 0x65, 0x6d, 0x61, 0x2e, 0x6a, 0x73, 0x6f, 0x6e]
}

/// The schema path a configuration path implies: in the same directory,
/// the file name with its last extension replaced by the schema suffix.
pub open spec fn spec_default_schema(s: Seq<u8>) -> Seq<u8> {
    match spec_rfind(s, 0x2f) {
        Some(k) => s.take(k) + seq![0x2fu8] + spec_drop_last_ext(s.skip(k + 1))
            + spec_schema_suffix(),
        None => spec_drop_last_ext(s) + spec_schema_suffix(),
    }
}

/// Appends the schema-file suffix.
fn push_schema_suffix(out: &mut Vec<u8>)
    ensures
        final(out)@ == old(out)@ + spec_schema_suffix(),
{
    // "-schema.json"
    out.push(0x2d);
    out.push(0x73);
    out.push(0x63);
    out.push(0x68);
    out.push(0x65);
    out.push(0x6d);
    out.push(0x61);
    out.push(0x2e);
    out.push(0x6a);
    out.push(0x73);
    out.push(0x6f);
    out.push(0x6e);
    proof {
        assert(out@ =~= old(out)@ + spec_schema_suffix());
    }
}

/// The file name with its last extension dropped.
fn drop_last_ext(name: &[u8]) -> (r: Vec<u8>)
    ensures
        r@ == spec_drop_last_ext(name@),
{
    proof {
        lemma_rfind(name@, 0x2e);
    }
    match rfind_byte(name, 0x2e) {
        Some(k) => copy_range(name, 0, k),
        None => {
            let r = copy_range(name, 0, name.len());
            proof {
                assert(r@ =~= name@);
            }
            r
        },
    }
}

/// Trailing path separators carry no file name and are ignored.
pub open spec fn spec_strip_trailing_slashes(s: Seq<u8>) -> Seq<u8>
    decreases s.len(),
{
    if s.len() > 0 && s.last() == 0x2f {
        spec_strip_trailing_slashes(s.take(s.len() - 1))
    } else {
        s
    }
}

proof fn lemma_strip_slashes_take(s: Seq<u8>, e: int)
    requires
        0 <= e <= s.len(),
        forall|j: int| e <= j < s.len() ==> s[j] == 0x2f,
    ensures
        spec_strip_trailing_slashes(s) == spec_strip_trailing_slashes(s.take(e)),
    decreases s.len() - e,
{
    if e < s.len() {
        assert(s.last() == 0x2f);
        assert(forall|j: int| e <= j < s.len() - 1 ==> #[trigger] s.take(s.len() - 1)[j] == 0x2f);
        lemma_strip_slashes_take(s.take(s.len() - 1), e);
        assert(s.take(s.len() - 1).take(e) =~= s.take(e));
    } else {
        assert(s.take(e) =~= s);
    }
}

/// Derives the default schema path from a configuration path: the file
/// name loses its last extension and gains the schema suffix, in the same
/// directory. Trailing separators are ignored; the path must still carry a
/// file name once they are gone.
pub fn default_schema_by_init(config: &str) -> (r: String)
    requires
        spec_strip_trailing_slashes(config.spec_bytes()).len() > 0,
    ensures
        vstd::utf8::valid_utf8(
            spec_default_schema(spec_strip_trailing_slashes(config.spec_bytes())),
        ) ==> r@ == vstd::utf8::decode_utf8(
            spec_default_schema(spec_strip_trailing_slashes(config.spec_bytes())),
        ),
{
    let all = config.as_bytes();
    proof {
        vstd::slice::axiom_spec_len(all);
    }
    let mut e: usize = all.len();
    while e > 0 && all[e - 1] == 0x2f
        invariant
            e <= all@.len(),
            forall|j: int| e <= j < all@.len() ==> all@[j] == 0x2f,
        decreases e,
    {
        e = e - 1;
    }
    let stripped = copy_range(all, 0, e);
    proof {
        lemma_strip_slashes_take(all@, e as int);
        if e > 0 {
            assert(all@.take(e as int).last() != 0x2f);
        }
        assert(spec_strip_trailing_slashes(all@.take(e as int)) == all@.take(e as int));
        assert(stripped@ =~= all@.take(e as int));
        assert(stripped@ == spec_strip_trailing_slashes(config.spec_bytes()));
    }
    let bytes = stripped.as_slice();
    proof {
        lemma_rfind(bytes@, 0x2f);
    }
    match rfind_byte(bytes, 0x2f) {
        Some(k) => {
            let mut out = copy_range(bytes, 0, k);
            out.push(0x2f);
            let name = copy_range(bytes, k + 1, bytes.len());
            proof {
                assert(name@ =~= bytes@.skip(k + 1));
            }
            let base = drop_last_ext(name.as_slice());
            out.extend_from_slice(base.as_slice());
            push_schema_suffix(&mut out);
            proof {
                assert(out@ =~= spec_default_schema(bytes@));
            }
            bytes_to_string(out.as_slice())
        },
        None => {
            let mut out = drop_last_ext(bytes);
            push_schema_suffix(&mut out);
            proof {
                assert(out@ =~= spec_default_schema(bytes@));
            }
            bytes_to_string(out.as_slice())
        },
    }
}

} // verus!
