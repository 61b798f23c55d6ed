//! One published version of one package, and the names derived from it.
use vstd::prelude::*;

verus! {

/// One published version of one package, as named by one index line.
#[derive(Debug)]
pub struct Crate {
    pub name: String,
    pub version: String,
}

impl View for Crate {
    type V = (Seq<char>, Seq<char>);

    open spec fn view(&self) -> (Seq<char>, Seq<char>) {
        (self.name@, self.version@)
    }
}

impl Crate {
    pub fn new(name: &str, version: &str) -> (r: Crate)
        ensures
            r.name@ == name@,
            r.version@ == version@,
    {
        Crate { name: name.to_string(), version: version.to_string() }
    }

    /// A copy of the record with the same name and version.
    pub fn duplicate(&self) -> (r: Crate)
        ensures
            r@ == self@,
    {
        Crate { name: self.name.clone(), version: self.version.clone() }
    }
}

/// `{base}/{name}/{version}/download`
pub open spec fn crate_url(base: Seq<char>, name: Seq<char>, version: Seq<char>) -> Seq<char> {
    base + "/"@ + name + "/"@ + version + "/download"@
}

/// `{name}-{version}.crate`
pub open spec fn archive_file_name(name: Seq<char>, version: Seq<char>) -> Seq<char> {
    name + "-"@ + version + ".crate"@
}

/// `{dir}/{name}-{version}.crate`: its presence marks a finished download.
pub open spec fn archive_path(dir: Seq<char>, name: Seq<char>, version: Seq<char>) -> Seq<char> {
    dir + "/"@ + archive_file_name(name, version)
}

/// The address from which the archive of `c` is fetched.
pub fn generate_crate_url(c: &Crate, base_url: &str) -> (r: String)
    ensures
        r@ == crate_url(base_url@, c.name@, c.version@),
{
    let mut r = base_url.to_string();
    r.append("/");
    r.append(c.name.as_str());
    r.append("/");
    r.append(c.version.as_str());
    r.append("/download");
    r
}

/// The local file that holds the archive of `c` under the directory `path`.
pub fn generate_crate_download_path(c: &Crate, path: &str) -> (r: String)
    ensures
        r@ == archive_path(path@, c.name@, c.version@),
{
    let mut r = path.to_string();
    r.append("/");
    r.append(c.name.as_str());
    r.append("-");
    r.append(c.version.as_str());
    r.append(".crate");
    r
}

} // verus!
