//! Reaching an S3-compatible storage endpoint (rust-s3).
use s3::creds::error::CredentialsError;
use s3::creds::Credentials;
use s3::error::S3Error;
use s3::region::Region;
use s3::Bucket;
use vstd::prelude::*;

verus! {

/// rust-s3's `Bucket`: a bucket with its region and credentials, opaque here.
#[verifier::external_type_specification]
#[verifier::external_body]
pub struct ExBucket(Bucket);

/// aws-creds' `Credentials`, opaque here.
#[verifier::external_type_specification]
#[verifier::external_body]
pub struct ExCredentials(Credentials);

/// aws-creds' `CredentialsError`, opaque here.
#[verifier::external_type_specification]
#[verifier::external_body]
pub struct ExCredentialsError(CredentialsError);

/// rust-s3's `S3Error`, opaque here.
#[verifier::external_type_specification]
#[verifier::external_body]
pub struct ExS3Error(S3Error);

/// Where and how to reach a storage endpoint.
pub struct Endpoint {
    pub access_key: String,
    pub secret_key: String,
    pub region: String,
    pub endpoint_url: String,
    pub bucket_name: String,
}

/// Credentials made from an access key and a secret key, with the keys they were made from.
pub struct StaticCredentials {
    credentials: Credentials,
    access_key: String,
    secret_key: String,
}

impl View for StaticCredentials {
    /// The access key and the secret key.
    type V = (Seq<char>, Seq<char>);

    closed spec fn view(&self) -> (Seq<char>, Seq<char>) {
        (self.access_key@, self.secret_key@)
    }
}

/// What a bucket was made with: its name, its custom region and endpoint, and the keys of its
/// credentials.
pub struct BucketSettings {
    pub name: Seq<char>,
    pub region: Seq<char>,
    pub endpoint_url: Seq<char>,
    pub access_key: Seq<char>,
    pub secret_key: Seq<char>,
}

/// A bucket in a custom region, with what it was made with.
pub struct StorageBucket {
    bucket: Bucket,
    name: String,
    region: String,
    endpoint_url: String,
    access_key: String,
    secret_key: String,
}

impl View for StorageBucket {
    type V = BucketSettings;

    closed spec fn view(&self) -> BucketSettings {
        BucketSettings {
            name: self.name@,
            region: self.region@,
            endpoint_url: self.endpoint_url@,
            access_key: self.access_key@,
            secret_key: self.secret_key@,
        }
    }
}

impl StorageBucket {
    /// The bucket itself.
    pub fn bucket(&self) -> &Bucket {
        &self.bucket
    }
}

/// Why the bucket could not be had.
pub enum AuthenticationError {
    CredentialsError(CredentialsError),
    BucketError(S3Error),
}

/// Calls `Credentials::new` (aws-creds) with the access and secret keys, no token and no
/// profile, and keeps the keys beside the credentials. Claimed, as its source shows: given an
/// access key, it returns `Ok` at once, with credentials made of these keys.
#[verifier::external_body]
fn static_credentials(access_key: &str, secret_key: &str) -> (r: Result<StaticCredentials, CredentialsError>)
    ensures
        r is Ok,
        r->Ok_0@ == (access_key@, secret_key@),
{
    let credentials = Credentials::new(Some(access_key), Some(secret_key), None, None, None)?;
    Ok(StaticCredentials { credentials, access_key: access_key.to_string(), secret_key: secret_key.to_string() })
}

/// Calls `Bucket::new` (rust-s3) for the bucket `name` in the custom region `region` at
/// `endpoint_url`, with `credentials`, and keeps beside the bucket what it was made with.
/// Claimed, as the source shows: it returns `Ok`, and the bucket holds the name, region and
/// credentials as given.
#[verifier::external_body]
fn bucket_in_custom_region(
    name: &str,
    region: &str,
    endpoint_url: &str,
    credentials: StaticCredentials,
) -> (r: Result<StorageBucket, S3Error>)
    ensures
        r is Ok,
        r->Ok_0@ == (BucketSettings {
            name: name@,
            region: region@,
            endpoint_url: endpoint_url@,
            access_key: credentials@.0,
            secret_key: credentials@.1,
        }),
{
    let custom = Region::Custom { region: region.to_string(), endpoint: endpoint_url.to_string() };
    let bucket = Bucket::new(name, custom, credentials.credentials)?;
    Ok(StorageBucket {
        bucket,
        name: name.to_string(),
        region: region.to_string(),
        endpoint_url: endpoint_url.to_string(),
        access_key: credentials.access_key,
        secret_key: credentials.secret_key,
    })
}

/// The bucket of `endpoint`, in its custom region, reached with its access and secret keys.
/// With an access key given, neither step can fail.
pub fn s3_authenticate(endpoint: &Endpoint) -> (r: Result<StorageBucket, AuthenticationError>)
    ensures
        r is Ok,
        r->Ok_0@ == (BucketSettings {
            name: endpoint.bucket_name@,
            region: endpoint.region@,
            endpoint_url: endpoint.endpoint_url@,
            access_key: endpoint.access_key@,
            secret_key: endpoint.secret_key@,
        }),
{
    let credentials = match static_credentials(endpoint.access_key.as_str(), endpoint.secret_key.as_str()) {
        Ok(c) => c,
        Err(e) => return Err(AuthenticationError::CredentialsError(e)),
    };
    match bucket_in_custom_region(
        endpoint.bucket_name.as_str(),
        endpoint.region.as_str(),
        endpoint.endpoint_url.as_str(),
        credentials,
    ) {
        Ok(bucket) => Ok(bucket),
        Err(e) => Err(AuthenticationError::BucketError(e)),
    }
}

} // verus!
