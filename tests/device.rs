use solo2::apps::admin::{locked_from_reply, uuid_from_reply, version_from_reply, App as Admin};
use solo2::apps::Select;
use solo2::device::{
    having, list, list_probed, merge, pick, resolve, Device, Identified, Resolution, Solo2, TransportPreference,
};
use solo2::error::Error;
use solo2::firmware::Version;
use solo2::transport::{ExchangeLog, Transport};
use solo2::uuid::Uuid;

/// A channel to a simulated device: answers the administrative application.
#[derive(Debug)]
struct Mock {
    name: &'static str,
    uuid: Option<u128>,
    version: [u8; 4],
    calls: Vec<u8>,
    selected: Vec<Vec<u8>>,
}

fn mock(name: &'static str, uuid: Option<u128>) -> Mock {
    Mock { name, uuid, version: [0x00, 0x40, 0x00, 0x41], calls: vec![], selected: vec![] }
}

impl Transport for Mock {
    fn log(&self) -> ExchangeLog {
        unreachable!("the exchange log exists in proofs only")
    }

    fn call(&mut self, instruction: u8, _data: &[u8]) -> Result<Vec<u8>, Error> {
        self.calls.push(instruction);
        match (instruction, self.uuid) {
            (0x62, Some(uuid)) => Ok(uuid.to_be_bytes().to_vec()),
            (0x62, None) => Err(Error::Device { sw1: 0x6A, sw2: 0x82, data: vec![] }),
            (0x61, _) if self.name.starts_with("broken") => Err(Error::Io),
            (0x61, _) => Ok(self.version.to_vec()),
            _ => Ok(vec![]),
        }
    }

    fn call_iso(&mut self, _: u8, _: u8, _: u8, _: u8, _: &[u8]) -> Result<Vec<u8>, Error> {
        Err(Error::TransportUnavailable)
    }

    fn select(&mut self, aid: Vec<u8>) -> Result<(), Error> {
        self.selected.push(aid);
        Ok(())
    }
}

#[test]
fn merge_groups_channels_by_uuid() {
    let u1 = Uuid(1);
    let u2 = Uuid(2);
    let u3 = Uuid(3);
    let records = merge(
        vec![(u1, "hid-1"), (u3, "hid-3")],
        vec![(u2, "card-2"), (u3, "card-3")],
    );
    assert_eq!(records.len(), 3);
    let find = |u: Uuid| records.iter().find(|r| r.uuid == u).unwrap();
    assert_eq!((find(u1).ctap, find(u1).pcsc), (Some("hid-1"), None));
    assert_eq!((find(u2).ctap, find(u2).pcsc), (None, Some("card-2")));
    assert_eq!((find(u3).ctap, find(u3).pcsc), (Some("hid-3"), Some("card-3")));
}

#[test]
fn list_builds_one_device_per_uuid() {
    let (devices, unreadable) = list_probed(
        vec![(Uuid(10), mock("hid-a", Some(10))), (Uuid(12), mock("hid-c", Some(12)))],
        vec![(Uuid(11), mock("card-b", Some(11))), (Uuid(12), mock("card-c", Some(12)))],
    );
    assert!(unreadable.is_empty());
    assert_eq!(devices.len(), 3);
    let flags: Vec<(u128, bool, bool)> = devices
        .iter()
        .map(|d| (d.uuid().0, d.as_ctap().is_some(), d.as_pcsc().is_some()))
        .collect();
    assert!(flags.contains(&(10, true, false)));
    assert!(flags.contains(&(11, false, true)));
    assert!(flags.contains(&(12, true, true)));
    for d in &devices {
        assert_eq!(d.version(), Version { major: 1, minor: 1, patch: 1 });
    }
}

#[test]
fn list_probes_and_drops_strangers() {
    let found = list(
        vec![mock("hid", Some(5))],
        vec![mock("reader without key", None), mock("card", Some(5))],
    );
    assert_eq!(found.ctap_probes, vec![Some(Uuid(5))]);
    assert_eq!(found.pcsc_probes, vec![None, Some(Uuid(5))]);
    assert!(found.unreadable.is_empty());
    let devices = found.devices;
    assert_eq!(devices.len(), 1);
    assert_eq!(devices[0].uuid(), Uuid(5));
    assert_eq!(devices[0].as_pcsc().unwrap().name, "card");
    assert_eq!(devices[0].as_ctap().unwrap().name, "hid");
}

#[test]
fn having_finds_exactly_one() {
    let devices = || {
        list_probed::<Mock, Mock>(
            vec![(Uuid(1), mock("a", Some(1))), (Uuid(2), mock("b", Some(2)))],
            vec![],
        )
        .0
    };
    let found = having(devices(), Uuid(2)).unwrap();
    assert_eq!(found.uuid(), Uuid(2));
    assert!(matches!(having(devices(), Uuid(3)), Err(Error::NoSuchDevice)));
}

#[test]
fn having_refuses_duplicates() {
    let bootloaders: Vec<Device<&str, Mock, Mock>> = vec![
        Device::Lpc55 { uuid: Uuid(4), bootloader: "first" },
        Device::Lpc55 { uuid: Uuid(4), bootloader: "second" },
        Device::Lpc55 { uuid: Uuid(5), bootloader: "third" },
    ];
    assert_eq!(having(bootloaders, Uuid(4)).err(), Some(Error::IdentityAmbiguous(2)));
}

#[test]
fn routing_follows_preference_with_fallback() {
    let mut both = Solo2::new(Some(mock("hid", Some(1))), Some(mock("card", Some(1))), Uuid(1), Version { major: 1, minor: 0, patch: 0 }).unwrap();
    assert_eq!(both.transport_preference(), TransportPreference::Pcsc);
    both.call(0x08, &[]).unwrap();
    assert_eq!(both.as_pcsc().unwrap().calls, vec![0x08]);
    assert!(both.as_ctap().unwrap().calls.is_empty());
    both.prefer_ctap();
    both.call(0x08, &[]).unwrap();
    assert_eq!(both.as_ctap().unwrap().calls, vec![0x08]);

    let mut hid_only: Solo2<Mock, Mock> = Solo2::new(Some(mock("hid", Some(1))), None, Uuid(1), Version { major: 1, minor: 0, patch: 0 }).unwrap();
    hid_only.call(0x53, &[]).unwrap();
    assert_eq!(hid_only.as_ctap().unwrap().calls, vec![0x53]);
    assert_eq!(hid_only.call_iso(0, 0xA4, 4, 0, &[]), Err(Error::TransportUnavailable));
    assert_eq!(hid_only.select(vec![1, 2, 3]), Ok(()));
    assert!(hid_only.as_ctap().unwrap().selected.is_empty());

    assert!(Solo2::<Mock, Mock>::new(None, None, Uuid(1), Version { major: 1, minor: 0, patch: 0 }).is_none());
}

#[test]
fn admin_app_selects_and_reads_identity() {
    let mut app = Admin::select(mock("card", Some(0x0102))).unwrap();
    assert_eq!(app.uuid(), Ok(Uuid(0x0102)));
    assert_eq!(app.version(), Ok(Version { major: 1, minor: 1, patch: 1 }));
    let channel = app.into_inner();
    assert_eq!(channel.selected, vec![vec![0xA0, 0x00, 0x00, 0x08, 0x47, 0x00, 0x00, 0x00, 0x01]]);
    assert_eq!(channel.calls, vec![0x62, 0x61]);
    assert_eq!(Admin::<Mock>::application_id(), vec![0xA0, 0x00, 0x00, 0x08, 0x47, 0x00, 0x00, 0x00, 0x01]);
}

#[test]
fn admin_reply_decoders() {
    assert_eq!(uuid_from_reply(&[0u8; 15]), Err(Error::InvalidInput));
    let mut bytes = [0u8; 16];
    bytes[15] = 0x2A;
    bytes[0] = 0x01;
    assert_eq!(uuid_from_reply(&bytes), Ok(Uuid((1u128 << 120) | 0x2A)));
    // major 2 (10 bits), minor 20220 (16 bits), patch 3 (6 bits)
    let packed: u32 = (2 << 22) | (20220 << 6) | 3;
    assert_eq!(version_from_reply(&packed.to_be_bytes()), Ok(Version { major: 2, minor: 20220, patch: 3 }));
    assert_eq!(version_from_reply(&[1, 2, 3]), Err(Error::InvalidInput));
    assert_eq!(locked_from_reply(&[1]), Ok(true));
    assert_eq!(locked_from_reply(&[0, 1]), Ok(false));
    assert_eq!(locked_from_reply(&[]), Err(Error::InvalidInput));
}

#[test]
fn resolving_requests_for_devices() {
    let devices = || -> Vec<Device<&str, Mock, Mock>> {
        vec![
            Device::Lpc55 { uuid: Uuid(1), bootloader: "a" },
            Device::Lpc55 { uuid: Uuid(2), bootloader: "b" },
        ]
    };
    match resolve(devices(), Some(Uuid(2)), false) {
        Ok(Resolution::Resolved(v)) => assert_eq!(v.len(), 1),
        _ => panic!("expected the device with UUID 2"),
    }
    assert!(matches!(resolve(devices(), Some(Uuid(3)), false), Err(Error::NoSuchDevice)));
    assert!(matches!(resolve(devices(), None, true), Ok(Resolution::Resolved(v)) if v.len() == 2));
    match resolve(devices(), None, false) {
        Ok(Resolution::Choose(v)) => {
            assert_eq!(pick(v, Some(1)).unwrap().uuid(), Uuid(2));
        }
        _ => panic!("expected a choice"),
    }
    assert!(matches!(resolve(Vec::<Device<&str, Mock, Mock>>::new(), None, false), Err(Error::NoSuchDevice)));
    assert_eq!(pick(vec![1, 2], None), Err(Error::UserAborted));
    assert_eq!(pick(vec![1, 2], Some(2)), Err(Error::InvalidInput));
}

#[test]
fn unreadable_versions_are_reported() {
    let found = list::<Mock, Mock>(vec![mock("broken hid", Some(7)), mock("hid", Some(8))], vec![]);
    assert_eq!(found.unreadable, vec![Uuid(7)]);
    assert_eq!(found.devices.len(), 1);
    assert_eq!(found.devices[0].uuid(), Uuid(8));
}
