use uuid::Uuid;
use vstd::prelude::*;

verus! {

/// A device holding (part of) the archive.
#[derive(Debug, Clone)]
pub struct Device {
    /// Database internal id
    pub id: Option<i64>,
    /// Platform specific id
    pub platform_id: String,
    /// Friendly name
    pub name: String,
}

/// What looking up the current device by its platform id gives: the first device found, or,
/// when none is, a new device to store, named by its platform id.
pub enum CurrentDevice {
    Found(Device),
    ToCreate(Device),
}

impl Device {
    /// A device not stored yet.
    pub fn new(platform_id: &str, name: &str) -> (device: Self)
        ensures
            device.id is None,
            device.platform_id@ == platform_id@,
            device.name@ == name@,
    {
        Device { id: None, platform_id: platform_id.to_string(), name: name.to_string() }
    }

    /// The current device, given the devices found under its platform id `platform_id`.
    pub fn current(platform_id: &str, found: Vec<Device>) -> (r: CurrentDevice)
        ensures
            found@.len() > 0 ==> r == CurrentDevice::Found(found@[0]),
            found@.len() == 0 ==> (r matches CurrentDevice::ToCreate(d) && d.id is None
                && d.platform_id@ == platform_id@ && d.name@ == platform_id@),
    {
        let mut found = found;
        if found.len() == 0 {
            CurrentDevice::ToCreate(Device::new(platform_id, platform_id))
        } else {
            CurrentDevice::Found(found.swap_remove(0))
        }
    }
}

/// What `system_profiler SPHardwareDataType -json` reports as the hardware's platform UUID in
/// the text `json`: parsed as JSON, the string at `SPHardwareDataType`, its first item, then
/// `platform_UUID`, if the text parses and holds a string there.
pub uninterp spec fn hardware_platform_uuid(json: Seq<char>) -> Option<Seq<char>>;

/// Parses `json` with `serde_json::from_str` into a `Value`, walks it with `Value::get` (the
/// key `SPHardwareDataType`, the index 0, the key `platform_UUID`) and reads a string there
/// with `Value::as_str`. Claimed: the outcome is a function of `json`, named
/// `hardware_platform_uuid`; nothing more is stated.
#[verifier::external_body]
fn profiler_platform_uuid(json: &str) -> (r: Option<String>)
    ensures
        hardware_platform_uuid(json@) == match r {
            Some(s) => Some(s@),
            None => None,
        },
{
    let value: serde_json::Value = serde_json::from_str(json).ok()?;
    Some(value.get("SPHardwareDataType")?.get(0)?.get("platform_UUID")?.as_str()?.to_string())
}

/// The platform id of a macOS host, from what `system_profiler SPHardwareDataType -json`
/// prints: the hardware's platform UUID, or `None` where the output holds none.
pub fn host_unique_id_from_profiler_json(json: &str) -> (id: Option<String>)
    ensures
        hardware_platform_uuid(json@) == match id {
            Some(s) => Some(s@),
            None => None,
        },
{
    profiler_platform_uuid(json)
}

/// The text of the version 5 UUID of `name` in the URL namespace.
pub uninterp spec fn uuid_v5_url(name: Seq<char>) -> Seq<char>;

/// A UUID in its hyphenated lower-case form: 36 characters, hyphens at 8, 13, 18 and 23,
/// lower-case hexadecimal digits elsewhere.
pub open spec fn is_hyphenated_uuid(s: Seq<char>) -> bool {
    &&& s.len() == 36
    &&& forall|i: int|
        0 <= i < 36 ==> if i == 8 || i == 13 || i == 18 || i == 23 {
            s[i] == '-'
        } else {
            crate::text::is_hex_digit(#[trigger] s[i])
        }
}

/// Calls `Uuid::new_v5` (uuid) with `Uuid::NAMESPACE_URL` on the UTF-8 bytes of `name`, and
/// formats it with `ToString` (`Display`, the hyphenated lower-case form). Claimed: the
/// result is a function of `name`, named `uuid_v5_url`, and has the hyphenated form.
#[verifier::external_body]
fn uuid_v5_url_string(name: &str) -> (s: String)
    ensures
        s@ == uuid_v5_url(name@),
        is_hyphenated_uuid(s@),
{
    Uuid::new_v5(&Uuid::NAMESPACE_URL, name.as_bytes()).to_string()
}

/// `s` without its newline characters.
pub open spec fn without_newlines(s: Seq<char>) -> Seq<char> {
    s.filter(|c: char| c != '\n')
}

/// The platform id of a Linux host whose `/etc/machine-id` reads `machine_id`: the version 5
/// UUID, in the URL namespace, of the machine id without its newlines.
pub fn host_unique_id_from_machine_id(machine_id: &str) -> (id: String)
    ensures
        id@ == uuid_v5_url(without_newlines(machine_id@)),
        is_hyphenated_uuid(id@),
{
    let n = machine_id.unicode_len();
    let mut trimmed = String::new();
    let mut i: usize = 0;
    while i < n
        invariant
            n == machine_id@.len(),
            i <= n,
            trimmed@ == without_newlines(machine_id@.take(i as int)),
        decreases n - i,
    {
        let c = machine_id.get_char(i);
        let ghost before = trimmed@;
        if c != '\n' {
            trimmed.append(machine_id.substring_char(i, i + 1));
            proof {
                assert(machine_id@.subrange(i as int, i + 1) =~= seq![c]);
                assert(trimmed@ =~= before.push(c));
            }
        }
        proof {
            let t = machine_id@.take(i + 1);
            assert(t =~= machine_id@.take(i as int).push(c));
            machine_id@.take(i as int).lemma_filter_push(c, |c: char| c != '\n');
        }
        i = i + 1;
    }
    proof {
        assert(machine_id@.take(n as int) =~= machine_id@);
    }
    uuid_v5_url_string(trimmed.as_str())
}

} // verus!
