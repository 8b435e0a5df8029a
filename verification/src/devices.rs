//! Audio devices: which of them can play, and what they are called.
use vstd::prelude::*;
use vstd::slice::slice_subrange;

use crate::engine::AudioEngine;
use crate::text::{decode_lossy, same_text, utf8_lossy};

verus! {

/// How many bytes the name of a device may take, with the zero byte at its end.
pub const NAME_BUFFER_SIZE: usize = 256;

/// How many bytes a device number takes.
pub const DEVICE_ID_SIZE: u32 = 4;

/// A device that can play.
#[derive(Debug)]
pub struct DeviceInfo {
    pub id: u32,
    pub name: String,
}

/// A device that can play.
pub struct DeviceView {
    pub id: u32,
    pub name: Seq<char>,
}

impl View for DeviceInfo {
    type V = DeviceView;

    open spec fn view(&self) -> DeviceView {
        DeviceView { id: self.id, name: self.name@ }
    }
}

/// What the system could not tell.
#[derive(Clone, Copy, Debug, PartialEq, Eq, Structural)]
pub enum DeviceError {
    ListSize,
    List,
    Name,
    Default,
}

impl DeviceError {
    /// What the user is told.
    pub open spec fn text(self) -> Seq<char> {
        match self {
            DeviceError::ListSize => "Failed to get device list size"@,
            DeviceError::List => "Failed to get device list"@,
            DeviceError::Name => "Failed to get device name"@,
            DeviceError::Default => "Failed to get default device"@,
        }
    }

    /// What the user is told.
    pub fn message(&self) -> (r: &'static str)
        ensures
            r@ == self.text(),
    {
        match self {
            DeviceError::ListSize => "Failed to get device list size",
            DeviceError::List => "Failed to get device list",
            DeviceError::Name => "Failed to get device name",
            DeviceError::Default => "Failed to get default device",
        }
    }
}

/// How many devices a list of the given size in bytes holds.
pub fn device_count(list_size: u32) -> (r: usize)
    ensures
        r == list_size / DEVICE_ID_SIZE,
{
    (list_size / DEVICE_ID_SIZE) as usize
}

/// The default device, from the system's reply.
pub fn default_device(status: i32, id: u32) -> (r: Result<u32, DeviceError>)
    ensures
        r == if status == 0 {
            Ok::<u32, DeviceError>(id)
        } else {
            Err(DeviceError::Default)
        },
{
    if status == 0 {
        Ok(id)
    } else {
        Err(DeviceError::Default)
    }
}

/// Whether a device plays: the system can tell the size of its output streams, and that is not
/// zero.
pub open spec fn plays(status: i32, size: u32) -> bool {
    status == 0 && size > 0
}

/// Whether a device plays.
pub fn is_output_device(status: i32, size: u32) -> (r: bool)
    ensures
        r == plays(status, size),
{
    status == 0 && size > 0
}

/// The bytes before the first zero byte; all of them where there is none.
pub open spec fn before_zero(buffer: Seq<u8>) -> Seq<u8>
    decreases buffer.len(),
{
    if buffer.len() == 0 || buffer[0] == 0 {
        Seq::empty()
    } else {
        seq![buffer[0]] + before_zero(buffer.skip(1))
    }
}

proof fn lemma_before_zero(buffer: Seq<u8>, n: int)
    requires
        0 <= n <= buffer.len(),
        forall|i: int| 0 <= i < n ==> #[trigger] buffer[i] != 0,
        n < buffer.len() ==> buffer[n] == 0,
    ensures
        before_zero(buffer) == buffer.take(n),
    decreases n,
{
    if n == 0 {
        assert(buffer.take(0) =~= Seq::<u8>::empty());
    } else {
        assert(buffer[0] != 0);
        let rest = buffer.skip(1);
        assert forall|i: int| 0 <= i < n - 1 implies #[trigger] rest[i] != 0 by {
            assert(buffer[i + 1] != 0);
        }
        lemma_before_zero(rest, n - 1);
        assert(seq![buffer[0]] + rest.take(n - 1) =~= buffer.take(n));
    }
}

/// The bytes before the first zero byte.
pub fn bytes_before_zero(buffer: &[u8]) -> (r: &[u8])
    ensures
        r@ == before_zero(buffer@),
{
    let mut n: usize = 0;
    while n < buffer.len() && buffer[n] != 0
        invariant
            n <= buffer@.len(),
            forall|i: int| 0 <= i < n ==> #[trigger] buffer@[i] != 0,
        decreases buffer@.len() - n,
    {
        n = n + 1;
    }
    proof {
        lemma_before_zero(buffer@, n as int);
        assert(buffer@.subrange(0, n as int) =~= buffer@.take(n as int));
    }
    slice_subrange(buffer, 0, n)
}

/// The name in a buffer: the text before the first zero byte.
pub open spec fn device_name_of(buffer: Seq<u8>) -> Seq<char> {
    utf8_lossy(before_zero(buffer))
}

/// A device with the name that the system wrote into a buffer.
pub fn get_device_info(id: u32, status: i32, name_buffer: &[u8]) -> (r: Result<
    DeviceInfo,
    DeviceError,
>)
    ensures
        match r {
            Ok(device) => status == 0 && device.id == id && device.name@ == device_name_of(
                name_buffer@,
            ),
            Err(error) => status != 0 && error == DeviceError::Name,
        },
{
    if status != 0 {
        return Err(DeviceError::Name);
    }
    Ok(DeviceInfo { id, name: decode_lossy(bytes_before_zero(name_buffer)) })
}

/// What the system told about a device.
#[derive(Debug)]
pub struct DeviceReply {
    pub id: u32,
    /// The status and size of its output streams.
    pub streams_status: i32,
    pub streams_size: u32,
    /// The status of the question for its name, and the name.
    pub name_status: i32,
    pub name_buffer: Vec<u8>,
}

/// What the system told about a device.
pub struct DeviceReplyView {
    pub id: u32,
    pub streams_status: i32,
    pub streams_size: u32,
    pub name_status: i32,
    pub name_buffer: Seq<u8>,
}

impl View for DeviceReply {
    type V = DeviceReplyView;

    open spec fn view(&self) -> DeviceReplyView {
        DeviceReplyView {
            id: self.id,
            streams_status: self.streams_status,
            streams_size: self.streams_size,
            name_status: self.name_status,
            name_buffer: self.name_buffer@,
        }
    }
}

/// Whether a device is offered: it plays, and its name can be read.
pub open spec fn offered(reply: DeviceReplyView) -> bool {
    plays(reply.streams_status, reply.streams_size) && reply.name_status == 0
}

/// The devices that are offered, as the system lists them.
pub open spec fn offered_devices(replies: Seq<DeviceReplyView>) -> Seq<DeviceView>
    decreases replies.len(),
{
    if replies.len() == 0 {
        Seq::empty()
    } else {
        let before = offered_devices(replies.drop_last());
        let reply = replies.last();
        if offered(reply) {
            before.push(DeviceView { id: reply.id, name: device_name_of(reply.name_buffer) })
        } else {
            before
        }
    }
}

/// The replies about devices.
pub open spec fn replies_view(replies: Seq<DeviceReply>) -> Seq<DeviceReplyView> {
    replies.map_values(|reply: DeviceReply| reply@)
}

/// The devices.
pub open spec fn devices_view(devices: Seq<DeviceInfo>) -> Seq<DeviceView> {
    devices.map_values(|device: DeviceInfo| device@)
}

impl AudioEngine {
    /// The devices that are offered. `size_status` and `list_status` tell whether the system gave
    /// the size of its device list, and the list.
    pub fn enumerate_devices(
        &self,
        size_status: i32,
        list_status: i32,
        replies: &[DeviceReply],
    ) -> (r: Result<Vec<DeviceInfo>, DeviceError>)
        ensures
            match r {
                Ok(devices) => {
                    &&& size_status == 0
                    &&& list_status == 0
                    &&& devices_view(devices@) == offered_devices(replies_view(replies@))
                },
                Err(error) => if size_status != 0 {
                    error == DeviceError::ListSize
                } else {
                    list_status != 0 && error == DeviceError::List
                },
            },
    {
        if size_status != 0 {
            return Err(DeviceError::ListSize);
        }
        if list_status != 0 {
            return Err(DeviceError::List);
        }
        let ghost views = replies_view(replies@);
        let mut devices: Vec<DeviceInfo> = Vec::new();
        let n: usize = replies.len();
        assert(devices_view(devices@) =~= offered_devices(views.take(0)));
        for i in 0..n
            invariant
                n == replies@.len(),
                views == replies_view(replies@),
                devices_view(devices@) == offered_devices(views.take(i as int)),
        {
            let ghost before = devices_view(devices@);
            let reply = &replies[i];
            proof {
                assert(views.take(i + 1).drop_last() =~= views.take(i as int));
                assert(views.take(i + 1).last() == reply@);
            }
            if is_output_device(reply.streams_status, reply.streams_size) {
                if let Ok(device) = get_device_info(
                    reply.id,
                    reply.name_status,
                    reply.name_buffer.as_slice(),
                ) {
                    devices.push(device);
                    assert(devices_view(devices@) =~= before.push(device@));
                }
            }
        }
        assert(views.take(n as int) =~= views);
        Ok(devices)
    }
}

/// Whether `at` is where a device of the name first stands.
pub open spec fn first_of_name(devices: Seq<DeviceView>, name: Seq<char>, at: int) -> bool {
    &&& 0 <= at < devices.len()
    &&& devices[at].name == name
    &&& forall|i: int| 0 <= i < at ==> (#[trigger] devices[i]).name != name
}

/// Whether a device of the name is in the list.
pub open spec fn lists_name(devices: Seq<DeviceView>, name: Seq<char>) -> bool {
    exists|i: int| 0 <= i < devices.len() && (#[trigger] devices[i]).name == name
}

/// Finds the device of a name.
pub fn find_device(devices: &[DeviceInfo], name: &str) -> (r: Option<u32>)
    ensures
        match r {
            Some(id) => exists|at: int| #[trigger]
                first_of_name(devices_view(devices@), name@, at) && devices@[at].id == id,
            None => !lists_name(devices_view(devices@), name@),
        },
{
    let ghost views = devices_view(devices@);
    let n: usize = devices.len();
    for i in 0..n
        invariant
            n == devices@.len(),
            views == devices_view(devices@),
            forall|k: int| 0 <= k < i ==> (#[trigger] views[k]).name != name@,
    {
        let same = same_text(devices[i].name.as_str(), name);
        assert(views[i as int] == devices@[i as int]@);
        if same {
            assert(first_of_name(views, name@, i as int));
            return Some(devices[i].id);
        }
    }
    None
}

/// Every output device whose name can be read is offered, under its number and name.
pub proof fn law_every_player_is_offered(replies: Seq<DeviceReplyView>, k: int)
    requires
        0 <= k < replies.len(),
        offered(replies[k]),
    ensures
        exists|i: int|
            0 <= i < offered_devices(replies).len() && (#[trigger] offered_devices(replies)[i]).id
                == replies[k].id && offered_devices(replies)[i].name == device_name_of(
                replies[k].name_buffer,
            ),
    decreases replies.len(),
{
    let before = offered_devices(replies.drop_last());
    let all = offered_devices(replies);
    if k == replies.len() - 1 {
        assert(all[before.len() as int].id == replies[k].id);
    } else {
        law_every_player_is_offered(replies.drop_last(), k);
        let i = choose|i: int|
            0 <= i < before.len() && (#[trigger] before[i]).id == replies[k].id && before[i].name
                == device_name_of(replies[k].name_buffer);
        assert(all[i] == before[i]);
    }
}

/// A device that cannot play, or whose name cannot be read, is not offered: every device that is
/// offered is one that plays, under its number and its name.
pub proof fn law_only_players_are_offered(replies: Seq<DeviceReplyView>, i: int)
    requires
        0 <= i < offered_devices(replies).len(),
    ensures
        exists|k: int|
            0 <= k < replies.len() && (#[trigger] replies[k]).streams_status == 0
                && replies[k].streams_size > 0 && replies[k].name_status == 0
                && offered_devices(replies)[i].id == replies[k].id && offered_devices(
                replies,
            )[i].name == device_name_of(replies[k].name_buffer),
    decreases replies.len(),
{
    let rest = replies.drop_last();
    let before = offered_devices(rest);
    if i < before.len() {
        law_only_players_are_offered(rest, i);
        let k = choose|k: int|
            0 <= k < rest.len() && (#[trigger] rest[k]).streams_status == 0 && rest[k].streams_size
                > 0 && rest[k].name_status == 0 && before[i].id == rest[k].id && before[i].name
                == device_name_of(rest[k].name_buffer);
        assert(replies[k] == rest[k]);
    } else {
        assert(replies[replies.len() - 1] == replies.last());
    }
}

/// One more device is offered at the end exactly where it plays and its name can be read; the
/// others stay as they are.
pub proof fn law_devices_are_offered_in_order(
    replies: Seq<DeviceReplyView>,
    reply: DeviceReplyView,
)
    ensures
        offered_devices(Seq::empty()).len() == 0,
        reply.streams_status == 0 && reply.streams_size > 0 && reply.name_status == 0
            ==> offered_devices(replies.push(reply)) == offered_devices(replies).push(
            DeviceView { id: reply.id, name: device_name_of(reply.name_buffer) },
        ),
        reply.streams_status != 0 || reply.streams_size == 0 || reply.name_status != 0
            ==> offered_devices(replies.push(reply)) == offered_devices(replies),
{
    assert(replies.push(reply).drop_last() =~= replies);
}

/// The name of a device is what stands before the first zero byte, whatever is behind it; without a
/// zero byte it is the whole buffer.
pub proof fn law_name_ends_at_the_first_zero(name: Seq<u8>, rest: Seq<u8>)
    requires
        forall|i: int| 0 <= i < name.len() ==> #[trigger] name[i] != 0,
    ensures
        device_name_of(name + seq![0u8] + rest) == utf8_lossy(name),
        device_name_of(name) == utf8_lossy(name),
{
    let buffer = name + seq![0u8] + rest;
    assert forall|i: int| 0 <= i < name.len() implies #[trigger] buffer[i] != 0 by {
        assert(name[i] != 0);
    }
    lemma_before_zero(buffer, name.len() as int);
    assert(buffer.take(name.len() as int) =~= name);
    lemma_before_zero(name, name.len() as int);
    assert(name.take(name.len() as int) =~= name);
}

/// The list of devices is refused exactly where the system could not tell its size or the list
/// itself, and then it is told which.
pub proof fn law_device_list_fails_as_the_system_does(
    engine: &AudioEngine,
    size_status: i32,
    list_status: i32,
    replies: &[DeviceReply],
    r: Result<Vec<DeviceInfo>, DeviceError>,
)
    requires
        call_ensures(
            AudioEngine::enumerate_devices,
            (engine, size_status, list_status, replies),
            r,
        ),
    ensures
        r is Ok <==> size_status == 0 && list_status == 0,
        size_status != 0 ==> (r matches Err(error) && error == DeviceError::ListSize),
        size_status == 0 && list_status != 0 ==> (r matches Err(error) && error
            == DeviceError::List),
{
}

/// The default device is the one that the system names, and there is none where it fails; a device
/// number takes four bytes of the list, so that so many devices fit in it.
pub proof fn law_default_device_and_count(
    status: i32,
    id: u32,
    r: Result<u32, DeviceError>,
    list_size: u32,
    count: usize,
)
    requires
        call_ensures(default_device, (status, id), r),
        call_ensures(device_count, (list_size,), count),
    ensures
        status == 0 ==> (r matches Ok(device) && device == id),
        status != 0 ==> (r matches Err(error) && error == DeviceError::Default),
        4 * count <= list_size < 4 * (count + 1),
{
}

/// The device of a name is found exactly where one of that name is in the list, and it is the first
/// of these.
pub proof fn law_first_device_of_a_name_is_found(
    devices: &[DeviceInfo],
    name: &str,
    r: Option<u32>,
    at: int,
)
    requires
        call_ensures(find_device, (devices, name), r),
        0 <= at < devices@.len(),
        devices@[at].name@ == name@,
        forall|i: int| 0 <= i < at ==> (#[trigger] devices@[i]).name@ != name@,
    ensures
        r == Some(devices@[at].id),
{
    let views = devices_view(devices@);
    if r is None {
        assert(views[at].name == name@);
    }
    let found = choose|k: int| #[trigger]
        first_of_name(views, name@, k) && devices@[k].id == r->Some_0;
    assert(views[at] == devices@[at]@);
    assert(views[found] == devices@[found]@);
    if at < found {
        assert(views[at].name != name@);
    }
    if found < at {
        assert(devices@[found].name@ != name@);
    }
}

/// The devices that are listed are exactly those that play and whose name can be read, under their
/// numbers and names: each of these is listed, and each that is listed is one of these.
pub proof fn law_listing_the_devices(
    engine: &AudioEngine,
    replies: &[DeviceReply],
    devices: Vec<DeviceInfo>,
    k: int,
    i: int,
)
    requires
        call_ensures(
            AudioEngine::enumerate_devices,
            (engine, 0i32, 0i32, replies),
            Ok::<Vec<DeviceInfo>, DeviceError>(devices),
        ),
        0 <= k < replies@.len(),
        0 <= i < devices@.len(),
    ensures
        replies@[k].streams_status == 0 && replies@[k].streams_size > 0 && replies@[k].name_status
            == 0 ==> exists|d: int|
            0 <= d < devices@.len() && (#[trigger] devices@[d]).id == replies@[k].id
                && devices@[d].name@ == device_name_of(replies@[k].name_buffer@),
        exists|d: int|
            0 <= d < replies@.len() && (#[trigger] replies@[d]).streams_status == 0
                && replies@[d].streams_size > 0 && replies@[d].name_status == 0 && devices@[i].id
                == replies@[d].id && devices@[i].name@ == device_name_of(replies@[d].name_buffer@),
{
    let views = replies_view(replies@);
    let listed = offered_devices(views);
    assert(devices_view(devices@) == listed);
    assert(views[k] == replies@[k]@);
    if offered(views[k]) {
        law_every_player_is_offered(views, k);
        let d = choose|d: int|
            0 <= d < listed.len() && (#[trigger] listed[d]).id == views[k].id && listed[d].name
                == device_name_of(views[k].name_buffer);
        assert(listed[d] == devices@[d]@);
        assert(devices@[d].id == replies@[k].id);
    }
    law_only_players_are_offered(views, i);
    assert(listed[i] == devices@[i]@);
    let d = choose|d: int|
        0 <= d < views.len() && (#[trigger] views[d]).streams_status == 0 && views[d].streams_size
            > 0 && views[d].name_status == 0 && listed[i].id == views[d].id && listed[i].name
            == device_name_of(views[d].name_buffer);
    assert(views[d] == replies@[d]@);
    assert(replies@[d].streams_status == 0);
}

/// A device gets its number and the name that the system wrote, and none where the system could not
/// tell its name.
pub proof fn law_device_has_its_number_and_name(
    id: u32,
    status: i32,
    name_buffer: &[u8],
    r: Result<DeviceInfo, DeviceError>,
)
    requires
        call_ensures(get_device_info, (id, status, name_buffer), r),
    ensures
        status == 0 ==> (r matches Ok(device) && device.id == id && device.name@ == device_name_of(
            name_buffer@,
        )),
        status != 0 ==> (r matches Err(error) && error == DeviceError::Name),
{
}

/// Each failure is told in its own words.
pub proof fn law_device_failures_are_told_apart(error: DeviceError, r: &'static str)
    requires
        call_ensures(DeviceError::message, (&error,), r),
    ensures
        error is ListSize ==> r@ == "Failed to get device list size"@,
        error is List ==> r@ == "Failed to get device list"@,
        error is Name ==> r@ == "Failed to get device name"@,
        error is Default ==> r@ == "Failed to get default device"@,
{
}

} // verus!
