//! The server side of the distribution protocol: a per-device table and the
//! handling of one received datagram — authenticate it under the device's
//! secret, record the device, and answer a ping with a signed pong and a
//! signed run carrying the device's program.
//!
//! The server owns no socket: the surrounding program receives datagrams and
//! sends the replies `handle_datagram` hands back, addressed by a caller-
//! chosen address type.

use vstd::prelude::*;

use crate::program::Program;
use crate::protocol::{
    hmac_sha1_of, mac_of, wire_data, MacAddr, Message, MessageType,
};

verus! {

/// Per-device configuration: an optional device-specific program (already
/// loaded to bytes) and an optional device-specific signing secret.
pub struct DeviceConfig {
    pub program: Option<Vec<u8>>,
    pub secret: Option<Vec<u8>>,
}

/// What the server knows of a device it has heard from.
pub struct DeviceStatus<A> {
    pub address: A,
    pub program: Option<Program>,
    pub secret: Vec<u8>,
    pub last_seen: u64,
}

/// The device-specific configuration entry for an address, if any; entries
/// are searched in order.
pub open spec fn spec_find_config(
    cfg: Seq<(MacAddr, DeviceConfig)>,
    mac: MacAddr,
) -> Option<DeviceConfig>
    decreases cfg.len(),
{
    if cfg.len() == 0 {
        None
    } else if cfg[0].0 == mac {
        Some(cfg[0].1)
    } else {
        spec_find_config(cfg.drop_first(), mac)
    }
}

/// The program of the device's table entry, if it has one.
pub open spec fn spec_device_program<A>(
    devices: Seq<(u64, DeviceStatus<A>)>,
    key: u64,
) -> Option<Program>
    decreases devices.len(),
{
    if devices.len() == 0 {
        None
    } else if devices[0].0 == key {
        devices[0].1.program
    } else {
        spec_device_program(devices.drop_first(), key)
    }
}

/// The table with the entry keyed `key` taken out (entries keep their order;
/// a table without the key is unchanged).
pub open spec fn remove_key<A>(
    devices: Seq<(u64, DeviceStatus<A>)>,
    key: u64,
) -> Seq<(u64, DeviceStatus<A>)>
    decreases devices.len(),
{
    if devices.len() == 0 {
        devices
    } else if devices[0].0 == key {
        devices.drop_first()
    } else {
        seq![devices[0]] + remove_key(devices.drop_first(), key)
    }
}

/// Taking a key out that sits at position `i`, alone, is removal at `i`.
proof fn lemma_remove_key_at<A>(devices: Seq<(u64, DeviceStatus<A>)>, key: u64, i: int)
    requires
        0 <= i < devices.len(),
        devices[i].0 == key,
        forall|t: int|
            0 <= t < devices.len() && t != i ==> (#[trigger] devices[t]).0 != key,
    ensures
        remove_key(devices, key) == devices.remove(i),
    decreases devices.len(),
{
    if i == 0 {
        assert(remove_key(devices, key) =~= devices.remove(0));
    } else {
        assert(devices[0].0 != key);
        assert(forall|t: int|
            0 <= t < devices.drop_first().len() ==> #[trigger] devices.drop_first()[t]
                == devices[t + 1]);
        lemma_remove_key_at(devices.drop_first(), key, i - 1);
        assert(devices.remove(i) =~= seq![devices[0]] + devices.drop_first().remove(i - 1));
    }
}

/// Taking out a key no entry carries changes nothing.
proof fn lemma_remove_key_absent<A>(devices: Seq<(u64, DeviceStatus<A>)>, key: u64)
    requires
        forall|t: int| 0 <= t < devices.len() ==> (#[trigger] devices[t]).0 != key,
    ensures
        remove_key(devices, key) == devices,
    decreases devices.len(),
{
    if devices.len() > 0 {
        assert(forall|t: int|
            0 <= t < devices.drop_first().len() ==> #[trigger] devices.drop_first()[t]
                == devices[t + 1]);
        lemma_remove_key_absent(devices.drop_first(), key);
        assert(seq![devices[0]] + devices.drop_first() =~= devices);
    }
}

/// The bytecode a ping is answered with: the device's current program if it
/// has one, else its configured program, else the global default.
pub open spec fn chosen_program_bytes(
    existing: Option<Program>,
    cfg: Option<DeviceConfig>,
    dflt: Seq<u8>,
) -> Seq<u8> {
    match existing {
        Some(p) => p.code@,
        None => match cfg {
            Some(c) => match c.program {
                Some(pp) => pp@,
                None => dflt,
            },
            None => dflt,
        },
    }
}


/// In a table with distinct keys, the entry found at a key's position is the
/// entry the search finds.
proof fn lemma_device_program_at<A>(devices: Seq<(u64, DeviceStatus<A>)>, key: u64, i: int)
    requires
        0 <= i < devices.len(),
        devices[i].0 == key,
        forall|a: int, b: int|
            0 <= a < b < devices.len() ==> (#[trigger] devices[a]).0 != (#[trigger] devices[b]).0,
    ensures
        spec_device_program(devices, key) == devices[i].1.program,
    decreases devices.len(),
{
    if i > 0 {
        assert(devices[0].0 != key);
        assert(devices.drop_first()[i - 1] == devices[i]);
        assert(forall|a: int, b: int|
            0 <= a < b < devices.drop_first().len() ==> (#[trigger] devices.drop_first()[a]).0
                != (#[trigger] devices.drop_first()[b]).0) by {
            assert(forall|t: int|
                0 <= t < devices.drop_first().len() ==> #[trigger] devices.drop_first()[t]
                    == devices[t + 1]);
        }
        lemma_device_program_at(devices.drop_first(), key, i - 1);
    }
}

/// A key no entry carries is not found.
proof fn lemma_device_program_absent<A>(devices: Seq<(u64, DeviceStatus<A>)>, key: u64)
    requires
        forall|t: int| 0 <= t < devices.len() ==> (#[trigger] devices[t]).0 != key,
    ensures
        spec_device_program(devices, key) is None,
    decreases devices.len(),
{
    if devices.len() > 0 {
        assert(forall|t: int|
            0 <= t < devices.drop_first().len() ==> #[trigger] devices.drop_first()[t]
                == devices[t + 1]);
        lemma_device_program_absent(devices.drop_first(), key);
    }
}

/// The per-device protocol state: static configuration and the live device
/// table, keyed by the packed hardware address.
pub struct Server<A> {
    pub config: Vec<(MacAddr, DeviceConfig)>,
    pub devices: Vec<(u64, DeviceStatus<A>)>,
    pub default_secret: Vec<u8>,
    pub default_program: Program,
}

impl<A: Copy> Server<A> {
    /// Each device has at most one table entry.
    pub open spec fn wf(self) -> bool {
        forall|i: int, j: int|
            0 <= i < j < self.devices@.len() ==> (#[trigger] self.devices@[i]).0 != (
            #[trigger] self.devices@[j]).0
    }

    /// The secret a frame from `mac` is verified under: the device's
    /// configured secret, or the global default.
    pub open spec fn chosen_secret(self, mac: MacAddr) -> Seq<u8> {
        match spec_find_config(self.config@, mac) {
            Some(c) => match c.secret {
                Some(sec) => sec@,
                None => self.default_secret@,
            },
            None => self.default_secret@,
        }
    }

    /// Whether a frame authenticates under a secret: long enough, and its
    /// trailing tag is the tag of its leading bytes.
    pub open spec fn frame_authentic(buffer: Seq<u8>, secret: Seq<u8>) -> bool {
        &&& buffer.len() >= 31
        &&& buffer.skip(buffer.len() - 20) == hmac_sha1_of(secret, buffer.take(buffer.len() - 20))
    }

    pub fn new(
        devices: Vec<(MacAddr, DeviceConfig)>,
        default_secret: &[u8],
        default_program: Program,
    ) -> (r: Server<A>)
        ensures
            r.wf(),
            r.config == devices,
            r.devices@.len() == 0,
            r.default_secret@ == default_secret@,
            r.default_program == default_program,
    {
        let mut secret: Vec<u8> = Vec::new();
        secret.extend_from_slice(default_secret);
        proof {
            assert(secret@ =~= default_secret@);
        }
        Server { config: devices, devices: Vec::new(), default_secret: secret, default_program }
    }

    /// The device-specific configuration for an address, cloned out.
    fn find_config(&self, mac: &MacAddr) -> (r: Option<(Option<Vec<u8>>, Option<Vec<u8>>)>)
        ensures
            match spec_find_config(self.config@, *mac) {
                Some(c) => {
                    &&& r is Some
                    &&& ((r->0).0 is Some <==> c.program is Some)
                    &&& (c.program is Some ==> (r->0).0->0@ == c.program->0@)
                    &&& ((r->0).1 is Some <==> c.secret is Some)
                    &&& (c.secret is Some ==> (r->0).1->0@ == c.secret->0@)
                },
                None => r is None,
            },
    {
        let mut i: usize = 0;
        let n = self.config.len();
        proof {
            assert(self.config@.skip(0) =~= self.config@);
        }
        while i < n
            invariant
                n == self.config@.len(),
                i <= n,
                spec_find_config(self.config@, *mac) == spec_find_config(
                    self.config@.skip(i as int),
                    *mac,
                ),
            decreases n - i,
        {
            proof {
                assert(self.config@.skip(i as int)[0] == self.config@[i as int]);
                assert(self.config@.skip(i as int).drop_first() =~= self.config@.skip(i + 1));
            }
            let entry = &self.config[i];
            if entry.0 == *mac {
                let program: Option<Vec<u8>> = match &entry.1.program {
                    Some(p) => Some(p.clone()),
                    None => None,
                };
                let secret: Option<Vec<u8>> = match &entry.1.secret {
                    Some(s) => Some(s.clone()),
                    None => None,
                };
                return Some((program, secret));
            }
            i = i + 1;
        }
        proof {
            assert(self.config@.skip(n as int) =~= Seq::<(MacAddr, DeviceConfig)>::empty());
        }
        None
    }

    /// Where the device's table entry sits, if it has one.
    fn find_device_index(&self, key: u64) -> (r: Option<usize>)
        requires
            self.wf(),
        ensures
            match r {
                Some(i) => i < self.devices@.len() && self.devices@[i as int].0 == key,
                None => forall|t: int|
                    0 <= t < self.devices@.len() ==> (#[trigger] self.devices@[t]).0 != key,
            },
    {
        let mut i: usize = 0;
        let n = self.devices.len();
        while i < n
            invariant
                n == self.devices@.len(),
                i <= n,
                forall|t: int| 0 <= t < i ==> (#[trigger] self.devices@[t]).0 != key,
            decreases n - i,
        {
            if self.devices[i].0 == key {
                return Some(i);
            }
            i = i + 1;
        }
        None
    }

    /// Handle one received datagram, timestamped `now` by the caller's
    /// clock, and hand back the datagrams to send in reply.
    ///
    /// A frame that is too short to carry an address, or that does not
    /// authenticate under the device's secret, changes nothing and is
    /// answered with nothing — in particular no device table entry is
    /// created for it. An authentic frame records its device with the
    /// caller's timestamp and return address. An authentic ping is answered
    /// with a signed pong echoing the frame's own timestamp from the
    /// all-zeros address, then a signed run carrying the device's program,
    /// which is also recorded as the device's current program; every other
    /// authentic frame is recorded and ignored, keeping whatever program the
    /// device already had. The rest of the table is untouched: the final
    /// table is the old one with this device's entry taken out, plus its
    /// updated entry.
    #[verifier::loop_isolation(false)]
    #[verifier::rlimit(100)]
    #[verifier::spinoff_prover]
    pub fn handle_datagram(&mut self, buffer: &[u8], source: A, now: u64) -> (r: Vec<(A, Vec<u8>)>)
        requires
            old(self).wf(),
        ensures
            final(self).wf(),
            final(self).config == old(self).config,
            final(self).default_secret == old(self).default_secret,
            final(self).default_program == old(self).default_program,
            buffer@.len() < 26 ==> final(self).devices == old(self).devices && r@.len() == 0,
            buffer@.len() >= 26 && !Server::<A>::frame_authentic(
                buffer@,
                old(self).chosen_secret(mac_of(buffer@)),
            ) ==> final(self).devices == old(self).devices && r@.len() == 0,
            buffer@.len() >= 26 && Server::<A>::frame_authentic(
                buffer@,
                old(self).chosen_secret(mac_of(buffer@)),
            ) ==> ({
                let mac = mac_of(buffer@);
                let secret = old(self).chosen_secret(mac);
                let time = crate::vm::le32_at(buffer@, 6);
                let entry = final(self).devices@.last();
                &&& final(self).devices@.len() >= 1
                &&& final(self).devices@ == remove_key(old(self).devices@, mac.spec_key()).push(
                    entry,
                )
                &&& entry.0 == mac.spec_key()
                &&& entry.1.last_seen == now
                &&& entry.1.address == source
                &&& (MessageType::spec_from(buffer@[10]) == MessageType::Ping ==> ({
                    let payload = chosen_program_bytes(
                        spec_device_program(old(self).devices@, mac.spec_key()),
                        spec_find_config(old(self).config@, mac),
                        old(self).default_program.code@,
                    );
                    let pong_data = wire_data(
                        seq![0u8, 0u8, 0u8, 0u8, 0u8, 0u8],
                        time as u32,
                        2,
                        Seq::<u8>::empty(),
                    );
                    let run_data = wire_data(
                        seq![0u8, 0u8, 0u8, 0u8, 0u8, 0u8],
                        time as u32,
                        4,
                        payload,
                    );
                    &&& r@.len() == 2
                    &&& r@[0].0 == source
                    &&& r@[0].1@ == pong_data + hmac_sha1_of(secret, pong_data)
                    &&& r@[1].0 == source
                    &&& r@[1].1@ == run_data + hmac_sha1_of(secret, run_data)
                    &&& entry.1.program is Some
                    &&& entry.1.program->0.code@ == payload
                }))
                &&& (MessageType::spec_from(buffer@[10]) != MessageType::Ping ==> r@.len() == 0
                    && entry.1.program == spec_device_program(
                    old(self).devices@,
                    mac.spec_key(),
                ))
            }),
    {
        let out: Vec<(A, Vec<u8>)> = Vec::new();
        let mac = match Message::peek_mac_address(buffer) {
            Err(_) => {
                return out;
            },
            Ok(m) => m,
        };
        let cfg = self.find_config(&mac);
        let secret: Vec<u8> = match &cfg {
            Some((_, Some(s))) => s.clone(),
            _ => self.default_secret.clone(),
        };
        proof {
            assert(secret@ == old(self).chosen_secret(mac_of(buffer@)));
        }
        let msg = match Message::from_buffer(buffer, secret.as_slice()) {
            Err(_) => {
                return out;
            },
            Ok(m) => m,
        };
        let key = mac.key();
        let ghost old_devices = self.devices@;
        let (entry_key, mut status) = match self.find_device_index(key) {
            Some(i) => {
                proof {
                    lemma_device_program_at(old_devices, key, i as int);
                    assert(forall|t: int|
                        0 <= t < old_devices.len() && t != i ==> (#[trigger] old_devices[t]).0
                            != key);
                    lemma_remove_key_at(old_devices, key, i as int);
                }
                self.devices.remove(i)
            },
            None => {
                proof {
                    lemma_device_program_absent(old_devices, key);
                    lemma_remove_key_absent(old_devices, key);
                }
                (
                    key,
                    DeviceStatus {
                        address: source,
                        program: None,
                        secret: secret.clone(),
                        last_seen: now,
                    },
                )
            },
        };
        proof {
            assert(status.program == spec_device_program(old_devices, key));
            assert(self.devices@ == remove_key(old_devices, key));
            assert(forall|t: int|
                0 <= t < self.devices@.len() ==> (#[trigger] self.devices@[t]).0 != key);
        }
        status.last_seen = now;
        status.address = source;
        let mut out2: Vec<(A, Vec<u8>)> = Vec::new();
        let is_ping = match msg.message_type {
            MessageType::Ping => true,
            _ => false,
        };
        if is_ping {
            let pong = Message {
                message_type: MessageType::Pong,
                unix_time: msg.unix_time,
                mac_address: MacAddr::nil(),
                payload: None,
            };
            out2.push((source, pong.signed(secret.as_slice())));
            let program_bytes: Vec<u8> = match &status.program {
                Some(p) => p.code.clone(),
                None => match &cfg {
                    Some((Some(pp), _)) => pp.clone(),
                    _ => self.default_program.code.clone(),
                },
            };
            let kept = program_bytes.clone();
            let run = Message {
                message_type: MessageType::Run,
                unix_time: msg.unix_time,
                mac_address: MacAddr::nil(),
                payload: Some(program_bytes),
            };
            out2.push((source, run.signed(secret.as_slice())));
            status.program = Some(Program::from_binary(kept));
        }
        self.devices.push((entry_key, status));
        proof {
            assert(self.devices@.last().0 == key);
        }
        out2
    }
}

} // verus!
