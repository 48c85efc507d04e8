//! Resource names as the store spells them.

use vstd::prelude::*;
use vstd::string::StringExecFns;
use vstd::string::StrSliceExecFns;
use crate::text::lemma_size_label_is_injective;
use crate::text::size_label;
use crate::text::size_text;

verus! {

/// The project that the examples run in.
pub const PROJECT_ID: &'static str = "gcp-for-rust";

/// A bucket that exists in that project.
pub const BUCKET_NAME: &'static str = "my-bucket-6624150a-c3ca-491a-8071-0561f63e7a0b";

/// The resource name of the project with the given id.
pub fn project_name(project_id: &str) -> (name: String)
    ensures
        name@ == "projects/"@ + project_id@,
{
    String::from_str("projects/").concat(project_id)
}

/// The full resource name of the bucket with the given short name.
pub fn bucket_id(bucket_name: &str) -> (id: String)
    ensures
        id@ == "projects/_/buckets/"@ + bucket_name@,
{
    String::from_str("projects/_/buckets/").concat(bucket_name)
}

/// What is left of `text` when `prefix` is taken from its front; `None`
/// when `text` does not start with `prefix`.
pub open spec fn stripped(prefix: Seq<char>, text: Seq<char>) -> Option<Seq<char>> {
    if prefix.is_prefix_of(text) {
        Some(text.skip(prefix.len() as int))
    } else {
        None
    }
}

/// What is left of `text` when `prefix` is taken from its front; `None`
/// when `text` does not start with `prefix`.
pub fn strip_prefix(text: &str, prefix: &str) -> (rest: Option<String>)
    ensures
        match stripped(prefix@, text@) {
            Some(left) => rest matches Some(r) && r@ == left,
            None => rest is None,
        },
{
    let len = text.unicode_len();
    let skip = prefix.unicode_len();
    if len < skip {
        return None;
    }
    let mut i: usize = 0;
    while i < skip
        invariant
            skip == prefix@.len(),
            len == text@.len(),
            skip <= len,
            i <= skip,
            forall|j: int| 0 <= j < i ==> text@[j] == prefix@[j],
        decreases skip - i,
    {
        if text.get_char(i) != prefix.get_char(i) {
            assert(text@.subrange(0, skip as int)[i as int] != prefix@[i as int]);
            return None;
        }
        i = i + 1;
    }
    assert(prefix@ =~= text@.subrange(0, skip as int));
    let rest = text.substring_char(skip, len).to_owned();
    assert(rest@ =~= text@.skip(skip as int));
    Some(rest)
}

/// The short name of the bucket with the given full resource name;
/// `None` when that is not the resource name of a bucket.
pub fn short_bucket_name(bucket_id: &str) -> (name: Option<String>)
    ensures
        match stripped("projects/_/buckets/"@, bucket_id@) {
            Some(short) => name matches Some(n) && n@ == short,
            None => name is None,
        },
{
    strip_prefix(bucket_id, "projects/_/buckets/")
}

/// The short name of a bucket is read back from its full resource name.
pub proof fn lemma_short_name_reads_back(bucket_name: Seq<char>)
    ensures
        stripped("projects/_/buckets/"@, "projects/_/buckets/"@ + bucket_name) == Some(
            bucket_name,
        ),
{
    let prefix = "projects/_/buckets/"@;
    let id = prefix + bucket_name;
    assert(prefix =~= id.subrange(0, prefix.len() as int));
    assert(id.skip(prefix.len() as int) =~= bucket_name);
}

/// The resource name of a folder of the bucket with the given short name.
pub fn folder_name(bucket_name: &str, folder: &str) -> (name: String)
    ensures
        name@ == "projects/_/buckets/"@ + bucket_name@ + "/folders/"@ + folder@,
{
    bucket_id(bucket_name).concat("/folders/").concat(folder)
}

/// The resource name of a secret of the project with the given id.
pub fn secret_name(project_id: &str, secret_id: &str) -> (name: String)
    ensures
        name@ == "projects/"@ + project_id@ + "/secrets/"@ + secret_id@,
{
    project_name(project_id).concat("/secrets/").concat(secret_id)
}

/// The short name of an example's own bucket: a fixed beginning, followed
/// by an ending that tells the buckets of different runs apart.
pub fn example_bucket_name(unique: &str) -> (name: String)
    ensures
        name@ == "my-bucket-"@ + unique@,
{
    String::from_str("my-bucket-").concat(unique)
}

/// The name of the object that holds `bytes` bytes: its size, followed by
/// `.txt`.
pub open spec fn sized_name(bytes: nat) -> Seq<char> {
    size_label(bytes) + ".txt"@
}

/// The name under which a build keeps its object of the given size.
pub fn object_name(bytes: u64) -> (name: String)
    ensures
        name@ == sized_name(bytes as nat),
{
    size_text(bytes).concat(".txt")
}

/// Objects of different sizes have different names.
pub proof fn lemma_sized_name_is_injective(a: nat, b: nat)
    requires
        sized_name(a) == sized_name(b),
    ensures
        a == b,
{
    let suffix = ".txt"@;
    assert(size_label(a) =~= sized_name(a).take(sized_name(a).len() - suffix.len()));
    assert(size_label(b) =~= sized_name(b).take(sized_name(b).len() - suffix.len()));
    lemma_size_label_is_injective(a, b);
}

} // verus!
