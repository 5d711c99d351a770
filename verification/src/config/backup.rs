//! Where the archive of base backups and write-ahead log is stored.
use vstd::prelude::*;
use vstd::string::*;

use crate::errors::{EmitterError, ErrorView};
use crate::mapping::{copy_opt, opt_view, or_clone, or_else};
use crate::text::{
    chars_of, starts_with, string_from, string_without_end_slashes, without_end_slashes,
};

verus! {

/// The archive settings as they are written down.
#[derive(Debug)]
pub struct BackupSection {
    pub archive: Option<String>,
    pub region: Option<String>,
    pub endpoint: Option<String>,
    pub force_path_style: bool,
    pub access_key: Option<String>,
    pub secret_key: Option<String>,
    pub session_token: Option<String>,
    pub credentials_path: Option<String>,
}

/// How the object store is entered.
#[derive(Debug)]
pub enum CredentialSource {
    Static { access_key: String, secret_key: String, session_token: Option<String> },
    /// Asked of the instance's metadata service.
    Imds,
}

#[derive(Debug)]
pub enum StorageSettings {
    S3 {
        bucket: String,
        prefix: String,
        region: String,
        creds: CredentialSource,
        endpoint: Option<String>,
        force_path_style: bool,
    },
    Gcs {
        bucket: String,
        prefix: String,
        credentials_path: Option<String>,
        endpoint: Option<String>,
    },
    Fs { path: String },
}

pub enum CredentialView {
    Static(Seq<char>, Seq<char>, Option<Seq<char>>),
    Imds,
}

pub enum StorageView {
    S3 {
        bucket: Seq<char>,
        prefix: Seq<char>,
        region: Seq<char>,
        creds: CredentialView,
        endpoint: Option<Seq<char>>,
        force_path_style: bool,
    },
    Gcs {
        bucket: Seq<char>,
        prefix: Seq<char>,
        credentials_path: Option<Seq<char>>,
        endpoint: Option<Seq<char>>,
    },
    Fs { path: Seq<char> },
}

impl View for CredentialSource {
    type V = CredentialView;

    open spec fn view(&self) -> CredentialView {
        match self {
            CredentialSource::Static { access_key, secret_key, session_token } =>
            CredentialView::Static(access_key@, secret_key@, opt_view(*session_token)),
            CredentialSource::Imds => CredentialView::Imds,
        }
    }
}

impl View for StorageSettings {
    type V = StorageView;

    open spec fn view(&self) -> StorageView {
        match self {
            StorageSettings::S3 { bucket, prefix, region, creds, endpoint, force_path_style } =>
            StorageView::S3 {
                bucket: bucket@,
                prefix: prefix@,
                region: region@,
                creds: creds@,
                endpoint: opt_view(*endpoint),
                force_path_style: *force_path_style,
            },
            StorageSettings::Gcs { bucket, prefix, credentials_path, endpoint } =>
            StorageView::Gcs {
                bucket: bucket@,
                prefix: prefix@,
                credentials_path: opt_view(*credentials_path),
                endpoint: opt_view(*endpoint),
            },
            StorageSettings::Fs { path } => StorageView::Fs { path: path@ },
        }
    }
}

/// `s` in quotes, with what needs it escaped.
pub uninterp spec fn debug_text(s: Seq<char>) -> Seq<char>;

/// `str`'s `Debug`, through `format!`, renders a string in quotes with its
/// special characters escaped; the rendering depends on the string alone.
/// Which characters are escaped, and how, is not said.
#[verifier::external_body]
fn debug_string(s: &str) -> (r: String)
    ensures
        r@ == debug_text(s@),
{
    format!("{s:?}")
}

pub fn backup_err(msg: &str) -> (e: EmitterError)
    ensures
        e@ == ErrorView::Config("[backup] "@ + msg@),
{
    let mut m: String = String::from_str("[backup] ");
    m.append(msg);
    EmitterError::Config(m)
}

/// Where the first slash of `s` stands; its length without one.
pub open spec fn first_slash(s: Seq<char>) -> nat
    decreases s.len(),
{
    if s.len() == 0 || s[0] == '/' {
        0
    } else {
        1 + first_slash(s.subrange(1, s.len() as int))
    }
}

/// The bucket is what stands before the first slash, the prefix what follows
/// it without the slashes at the end.
pub open spec fn bucket_and_prefix(rest: Seq<char>) -> (Seq<char>, Seq<char>) {
    let at = first_slash(rest);
    if at < rest.len() {
        (
            rest.subrange(0, at as int),
            without_end_slashes(rest.subrange(at as int + 1, rest.len() as int)),
        )
    } else {
        (rest, Seq::empty())
    }
}

pub fn split_bucket_prefix(rest: &str) -> (r: (String, String))
    ensures
        (r.0@, r.1@) == bucket_and_prefix(rest@),
{
    let v: Vec<char> = chars_of(rest);
    let n: usize = v.len();
    let mut at: usize = 0;
    proof {
        assert(v@.subrange(0, n as int) =~= rest@);
    }
    while at < n && v[at] != '/'
        invariant
            at <= n == v@.len(),
            v@ == rest@,
            first_slash(rest@) == at + first_slash(v@.subrange(at as int, n as int)),
        decreases n - at,
    {
        proof {
            let part = v@.subrange(at as int, n as int);
            assert(part[0] == v@[at as int]);
            assert(part.subrange(1, part.len() as int) =~= v@.subrange(at + 1, n as int));
        }
        at = at + 1;
    }
    proof {
        let part = v@.subrange(at as int, n as int);
        if part.len() > 0 {
            assert(part[0] == v@[at as int]);
        }
        assert(first_slash(part) == 0);
        assert(v@.subrange(0, n as int) =~= rest@);
    }
    if at < n {
        (string_from(&v, 0, at), string_without_end_slashes(&v, at + 1))
    } else {
        (string_from(&v, 0, n), String::new())
    }
}

/// What follows `prefix` in `s`.
fn after_prefix(s: &str, prefix: &str) -> (r: Option<String>)
    ensures
        match r {
            Some(t) => prefix@.is_prefix_of(s@) && t@ == s@.subrange(
                prefix@.len() as int,
                s@.len() as int,
            ),
            None => !prefix@.is_prefix_of(s@),
        },
{
    if !starts_with(s, prefix) {
        return None;
    }
    let v: Vec<char> = chars_of(s);
    let p: Vec<char> = chars_of(prefix);
    Some(string_from(&v, p.len(), v.len()))
}

pub open spec fn after(s: Seq<char>, prefix: Seq<char>) -> Seq<char> {
    s.subrange(prefix.len() as int, s.len() as int)
}

/// The credentials that are written down, both or neither; without any the
/// metadata service is asked, which may be out of reach.
pub open spec fn credentials(bk: BackupSection, imds_fault: Option<Seq<char>>) -> Result<
    CredentialView,
    Seq<char>,
> {
    match (bk.access_key, bk.secret_key) {
        (Some(a), Some(s)) => Ok(CredentialView::Static(a@, s@, opt_view(bk.session_token))),
        (None, None) => match imds_fault {
            Some(e) => Err("imds: "@ + e),
            None => Ok(CredentialView::Imds),
        },
        _ => Err("set both access_key and secret_key, or neither (IMDS)"@),
    }
}

/// What the section stands for: the storage that the archive's prefix names,
/// or what is wrong.
pub open spec fn storage_of(bk: BackupSection, imds_fault: Option<Seq<char>>) -> Result<
    StorageView,
    Seq<char>,
> {
    match bk.archive {
        None => Err("archive required (s3://, gs://, or file://)"@),
        Some(archive) => {
            let a = archive@;
            if "s3://"@.is_prefix_of(a) {
                let (bucket, prefix) = bucket_and_prefix(after(a, "s3://"@));
                match credentials(bk, imds_fault) {
                    Err(e) => Err(e),
                    Ok(creds) => Ok(
                        StorageView::S3 {
                            bucket,
                            prefix,
                            region: or_else(opt_view(bk.region), "us-east-1"@),
                            creds,
                            endpoint: opt_view(bk.endpoint),
                            force_path_style: bk.force_path_style,
                        },
                    ),
                }
            } else if "gs://"@.is_prefix_of(a) {
                let (bucket, prefix) = bucket_and_prefix(after(a, "gs://"@));
                Ok(
                    StorageView::Gcs {
                        bucket,
                        prefix,
                        credentials_path: opt_view(bk.credentials_path),
                        endpoint: opt_view(bk.endpoint),
                    },
                )
            } else if "file://"@.is_prefix_of(a) {
                Ok(StorageView::Fs { path: after(a, "file://"@) })
            } else {
                Err("archive "@ + debug_text(a) + " must start with s3://, gs://, or file://"@)
            }
        },
    }
}

/// The section leaves its credentials to the metadata service: an S3 archive
/// without keys.
pub open spec fn needs_metadata(bk: BackupSection) -> bool {
    &&& bk.access_key is None
    &&& bk.secret_key is None
    &&& bk.archive matches Some(a) && "s3://"@.is_prefix_of(a@)
}

/// Whether the metadata service has to be set up for the section.
pub fn asks_metadata_service(bk: &BackupSection) -> (r: bool)
    ensures
        r == needs_metadata(*bk),
{
    match &bk.archive {
        None => false,
        Some(a) => bk.access_key.is_none() && bk.secret_key.is_none() && starts_with(
            a.as_str(),
            "s3://",
        ),
    }
}

/// Whether the metadata service can be reached makes no difference to a
/// section that does not leave its credentials to it.
pub proof fn metadata_matters_only_where_asked(
    bk: BackupSection,
    a: Option<Seq<char>>,
    b: Option<Seq<char>>,
)
    requires
        !needs_metadata(bk),
    ensures
        storage_of(bk, a) == storage_of(bk, b),
{
}

fn s3_credentials(bk: &BackupSection, imds_fault: &Option<String>) -> (r: Result<
    CredentialSource,
    EmitterError,
>)
    ensures
        match credentials(*bk, opt_view(*imds_fault)) {
            Ok(c) => r is Ok && r->Ok_0@ == c,
            Err(m) => r is Err && r->Err_0@ == ErrorView::Config("[backup] "@ + m),
        },
{
    match (&bk.access_key, &bk.secret_key) {
        (Some(a), Some(s)) => Ok(
            CredentialSource::Static {
                access_key: a.clone(),
                secret_key: s.clone(),
                session_token: copy_opt(&bk.session_token),
            },
        ),
        (None, None) => match imds_fault {
            Some(e) => {
                let mut m: String = String::from_str("imds: ");
                m.append(e.as_str());
                Err(backup_err(m.as_str()))
            },
            None => Ok(CredentialSource::Imds),
        },
        _ => Err(backup_err("set both access_key and secret_key, or neither (IMDS)")),
    }
}

/// The storage that the section names. `imds_fault` is what kept the metadata
/// service from being set up, where something did.
pub fn parse_backup(bk: &BackupSection, imds_fault: &Option<String>) -> (r: Result<
    StorageSettings,
    EmitterError,
>)
    ensures
        match storage_of(*bk, opt_view(*imds_fault)) {
            Ok(s) => r is Ok && r->Ok_0@ == s,
            Err(m) => r is Err && r->Err_0@ == ErrorView::Config("[backup] "@ + m),
        },
{
    let archive: &String = match &bk.archive {
        Some(a) => a,
        None => {
            return Err(backup_err("archive required (s3://, gs://, or file://)"));
        },
    };
    if let Some(rest) = after_prefix(archive.as_str(), "s3://") {
        let (bucket, prefix) = split_bucket_prefix(rest.as_str());
        let creds: CredentialSource = match s3_credentials(bk, imds_fault) {
            Ok(c) => c,
            Err(e) => {
                return Err(e);
            },
        };
        return Ok(
            StorageSettings::S3 {
                bucket,
                prefix,
                region: or_clone(&bk.region, "us-east-1"),
                creds,
                endpoint: copy_opt(&bk.endpoint),
                force_path_style: bk.force_path_style,
            },
        );
    }
    if let Some(rest) = after_prefix(archive.as_str(), "gs://") {
        let (bucket, prefix) = split_bucket_prefix(rest.as_str());
        return Ok(
            StorageSettings::Gcs {
                bucket,
                prefix,
                credentials_path: copy_opt(&bk.credentials_path),
                endpoint: copy_opt(&bk.endpoint),
            },
        );
    }
    if let Some(rest) = after_prefix(archive.as_str(), "file://") {
        return Ok(StorageSettings::Fs { path: rest });
    }
    let mut m: String = String::from_str("archive ");
    m.append(debug_string(archive.as_str()).as_str());
    m.append(" must start with s3://, gs://, or file://");
    Err(backup_err(m.as_str()))
}

} // verus!
