//! The upload handler's decision: validate the multipart fields, derive the
//! extension, pick a fresh stored name and build the public URL.
use vstd::prelude::*;
use crate::names::{ext_of, extension_of, gen_name, is_generated_name, name_taken};

verus! {

/// Why an upload was rejected.
#[derive(Clone, Copy, PartialEq, Eq, Debug, Structural)]
pub enum UploadError {
    /// The multipart body had no `file` field.
    NoFile,
    /// The multipart body had no `filename` field.
    NoFilename,
    /// Every attempted stored name was already in use.
    NamesExhausted,
}

impl UploadError {
    /// The client-visible message of this error.
    pub fn message(&self) -> (r: String)
        ensures
            *self is NoFile ==> r@ == "No file field!"@,
            *self is NoFilename ==> r@ == "No filename field"@,
            *self is NamesExhausted ==> r@ == "No free name available"@,
    {
        match self {
            UploadError::NoFile => String::from_str("No file field!"),
            UploadError::NoFilename => String::from_str("No filename field"),
            UploadError::NamesExhausted => String::from_str("No free name available"),
        }
    }
}

/// What an accepted upload asks of the filesystem: write `data` under
/// `name` in the upload directory, and answer the client with `url`.
#[derive(Debug)]
pub struct UploadPlan {
    /// The generated stored name.
    pub name: String,
    /// The public URL of the stored file.
    pub url: String,
    /// The raw bytes to write, exactly the uploaded payload.
    pub data: Vec<u8>,
}

/// The public URL of a stored name under the site base URL.
pub open spec fn url_of(site: Seq<char>, name: Seq<char>) -> Seq<char> {
    site + "/"@ + name
}

/// A public URL is the site base URL, one slash, then the stored name, so
/// its final path segment is exactly the stored name.
pub proof fn lemma_url_segment(site: Seq<char>, name: Seq<char>)
    ensures
        url_of(site, name).len() == site.len() + 1 + name.len(),
        url_of(site, name).subrange(
            site.len() as int + 1,
            url_of(site, name).len() as int,
        ) == name,
        url_of(site, name)[site.len() as int] == '/',
{
    reveal_strlit("/");
    assert(url_of(site, name).subrange(site.len() as int + 1, url_of(site, name).len() as int)
        =~= name);
}

/// Decides an upload request. Rejects a request with a missing `file` or
/// `filename` field; otherwise derives the extension from the filename,
/// generates a stored name that no existing file carries, and returns the
/// bytes to write together with the public URL. A well-formed request
/// against an empty directory is always accepted.
pub fn process_upload(
    file: Option<Vec<u8>>,
    filename: &Option<String>,
    existing: &Vec<String>,
    site: &String,
) -> (r: Result<UploadPlan, UploadError>)
    ensures
        file is None <==> r matches Err(UploadError::NoFile),
        (file is Some && filename is None) <==> r matches Err(UploadError::NoFilename),
        r matches Err(UploadError::NamesExhausted) ==> file is Some && filename is Some,
        (file is Some && filename is Some && existing@.len() == 0) ==> r is Ok,
        r matches Ok(plan) ==> {
            &&& file is Some && filename is Some
            &&& plan.data@ == file->Some_0@
            &&& is_generated_name(plan.name@, ext_of(filename->Some_0@))
            &&& !name_taken(existing@, plan.name@)
            &&& plan.url@ == url_of(site@, plan.name@)
        },
{
    let data = match file {
        Some(d) => d,
        None => {
            return Err(UploadError::NoFile);
        },
    };
    let fname = match filename {
        Some(f) => f,
        None => {
            return Err(UploadError::NoFilename);
        },
    };
    let ext = extension_of(fname);
    let name = match gen_name(&ext, existing) {
        Some(n) => n,
        None => {
            return Err(UploadError::NamesExhausted);
        },
    };
    let mut url = site.clone();
    url.append("/");
    url.append(name.as_str());
    Ok(UploadPlan { name, url, data })
}

} // verus!
