//! The root-key ring, over the files of its directory.

use mint::keyring::{
    key_file_kid, key_file_text, kid_file_name, pointer_text, read_pointer, KeyFile, Keyring,
    KeyringError, Kid,
};
use std::collections::BTreeMap;

/// A keyring directory in memory.
struct Dir {
    files: BTreeMap<String, String>,
    pointer: Option<String>,
}

impl Dir {
    fn new() -> Dir {
        Dir {
            files: BTreeMap::new(),
            pointer: None,
        }
    }

    fn listing(&self) -> Vec<KeyFile> {
        self.files
            .iter()
            .map(|(n, c)| KeyFile {
                name: n.clone(),
                contents: c.clone(),
            })
            .collect()
    }

    fn write(&mut self, kid: Kid, key: &[u8; 32]) {
        self.files.insert(kid_file_name(kid), key_file_text(key));
    }

    fn try_open(&mut self, initial: Option<[u8; 32]>) -> Result<Keyring, KeyringError> {
        let (kr, fresh) = Keyring::open(&self.listing(), self.pointer.as_deref(), initial)?;
        if fresh {
            let key = *kr.current_key();
            self.write(0, &key);
            self.pointer = Some(pointer_text(0));
        }
        Ok(kr)
    }

    fn open(&mut self, initial: Option<[u8; 32]>) -> Keyring {
        self.try_open(initial).unwrap()
    }

    fn add(&mut self, kr: &mut Keyring, key: Option<[u8; 32]>) -> Result<Kid, KeyringError> {
        let on_disk = kr
            .next_kid()
            .and_then(|k| self.files.get(&kid_file_name(k)).cloned());
        let kid = kr.add_and_promote(key, on_disk.as_deref())?;
        let bytes = *kr.current_key();
        self.write(kid, &bytes);
        self.pointer = Some(pointer_text(kid));
        Ok(kid)
    }

    fn retire(&mut self, kr: &mut Keyring, kid: Kid) -> Result<(), KeyringError> {
        kr.retire(kid)?;
        self.files.remove(&kid_file_name(kid));
        Ok(())
    }
}

#[test]
fn first_open_generates_kid_zero() {
    let mut dir = Dir::new();
    let kr = dir.open(None);
    assert_eq!(kr.current_kid(), 0);
    assert_eq!(kr.len(), 1);
    assert_ne!(kr.current_key(), &[0u8; 32]);
    assert_eq!(dir.files["0000"].trim().len(), 64);
    assert_eq!(dir.pointer.as_deref().unwrap().trim(), "0000");
}

#[test]
fn first_open_with_supplied_initial_key_adopts_it() {
    let mut dir = Dir::new();
    let kr = dir.open(Some([7u8; 32]));
    assert_eq!(kr.current_kid(), 0);
    assert_eq!(kr.current_key(), &[7u8; 32]);
}

#[test]
fn supplied_initial_key_ignored_when_ring_already_populated() {
    let mut dir = Dir::new();
    let kr = dir.open(None);
    let original = *kr.current_key();
    let kr2 = dir.open(Some([9u8; 32]));
    assert_eq!(
        kr2.current_key(),
        &original,
        "ring already populated; supplied initial is a no-op"
    );
}

#[test]
fn reopen_preserves_keys_and_pointer() {
    let mut dir = Dir::new();
    let k1 = *dir.open(None).current_key();
    let k2 = *dir.open(None).current_key();
    assert_eq!(k1, k2, "restart preserves the key");
}

#[test]
fn add_and_promote_advances_current() {
    let mut dir = Dir::new();
    let mut kr = dir.open(None);
    let k0 = *kr.current_key();
    let new_kid = dir.add(&mut kr, None).unwrap();
    assert_eq!(new_kid, 1);
    assert_eq!(kr.current_kid(), 1);
    assert_eq!(kr.len(), 2);
    assert_ne!(kr.current_key(), &k0, "current is the new key");
    assert_eq!(kr.get(0), Some(&k0), "old kid still in ring for verify");
    assert_eq!(dir.pointer.as_deref().unwrap().trim(), "0001");
}

#[test]
fn add_and_promote_accepts_supplied_key() {
    let mut dir = Dir::new();
    let mut kr = dir.open(None);
    let kid = dir.add(&mut kr, Some([42u8; 32])).unwrap();
    assert_eq!(kid, 1);
    assert_eq!(kr.current_key(), &[42u8; 32]);
    let kr2 = dir.open(None);
    assert_eq!(kr2.current_key(), &[42u8; 32]);
    assert_eq!(kr2.current_kid(), 1);
}

#[test]
fn add_and_promote_is_idempotent_for_matching_existing_key() {
    let mut dir = Dir::new();
    let mut kr_a = dir.open(None);
    dir.add(&mut kr_a, Some([42u8; 32])).unwrap();
    let mut kr_b = dir.open(None);
    let kid = dir.add(&mut kr_b, Some([42u8; 32])).unwrap();
    assert_eq!(kid, 2, "next kid after the existing one");
    let kid3 = dir.add(&mut kr_b, Some([99u8; 32])).unwrap();
    assert_eq!(kid3, 3);
    let mut kr_c = dir.open(None);
    dir.write(4, &[1u8; 32]);
    let err = dir.add(&mut kr_c, Some([2u8; 32])).unwrap_err();
    assert!(matches!(err, KeyringError::KeyMismatch(4)));
    // The same bytes go through.
    assert_eq!(dir.add(&mut kr_c, Some([1u8; 32])).unwrap(), 4);
}

#[test]
fn retire_drops_old_kid_and_rejects_current() {
    let mut dir = Dir::new();
    let mut kr = dir.open(None);
    dir.add(&mut kr, None).unwrap();
    let current = kr.current_kid();
    assert!(matches!(
        dir.retire(&mut kr, current),
        Err(KeyringError::WouldRetireCurrent)
    ));
    dir.retire(&mut kr, 0).unwrap();
    assert_eq!(kr.len(), 1);
    assert!(kr.get(0).is_none());
    assert!(!dir.files.contains_key("0000"));
    assert!(matches!(
        dir.retire(&mut kr, 0),
        Err(KeyringError::UnknownKid(0))
    ));
}

#[test]
fn pointer_at_retired_kid_falls_back_to_highest_extant() {
    let mut dir = Dir::new();
    let mut kr = dir.open(None);
    dir.add(&mut kr, None).unwrap();
    dir.add(&mut kr, None).unwrap();
    dir.files.remove("0002");
    let kr2 = dir.open(None);
    assert_eq!(
        kr2.current_kid(),
        1,
        "fell back to highest extant kid (1) after 2 disappeared"
    );
}

#[test]
fn ignores_tmp_files_and_non_kid_entries() {
    let mut dir = Dir::new();
    let kr = dir.open(None);
    dir.files.insert("0001.tmp".into(), "garbage".into());
    dir.files.insert("notes.md".into(), "hi".into());
    let kr2 = dir.open(None);
    assert_eq!(kr2.current_kid(), kr.current_kid());
    assert_eq!(kr2.len(), 1);
}

#[test]
fn single_constructor_for_tests() {
    let kr = Keyring::single([5u8; 32]);
    assert_eq!(kr.current_kid(), 0);
    assert_eq!(kr.current_key(), &[5u8; 32]);
    assert_eq!(kr.get(0), Some(&[5u8; 32]));
    assert_eq!(kr.get(99), None);
}

/// Adding, retiring and reopening keep the ring in step with a model: the
/// current kid is the highest and resolves, an add advances by one, a
/// retirement drops only its target, a restart preserves everything.
#[test]
fn rotation_state_machine() {
    let mut dir = Dir::new();
    let mut kr = dir.open(None);
    let mut model: BTreeMap<Kid, [u8; 32]> = BTreeMap::new();
    model.insert(0, *kr.current_key());
    let mut current: Kid = 0;
    for step in 0..40u8 {
        match step % 5 {
            0 | 3 => {
                let key = [step; 32];
                assert_eq!(dir.add(&mut kr, Some(key)).unwrap(), current + 1);
                current += 1;
                model.insert(current, key);
            }
            1 => kr = dir.open(None),
            _ => {
                let live: Vec<Kid> = model.keys().copied().collect();
                let target = live[usize::from(step) % live.len()];
                let r = dir.retire(&mut kr, target);
                if target == current {
                    assert!(matches!(r, Err(KeyringError::WouldRetireCurrent)));
                } else {
                    r.unwrap();
                    model.remove(&target);
                }
            }
        }
        assert_eq!(kr.current_kid(), current);
        assert_eq!(kr.kids(), model.keys().copied().collect::<Vec<_>>());
        assert_eq!(kr.len(), model.len());
        assert!(!kr.is_empty());
        for (kid, key) in &model {
            assert_eq!(kr.get(*kid), Some(key));
        }
    }
}

#[test]
fn missing_pointer_falls_back_to_highest_kid() {
    let mut dir = Dir::new();
    let mut kr = dir.open(None);
    dir.add(&mut kr, Some([1u8; 32])).unwrap();
    dir.add(&mut kr, Some([2u8; 32])).unwrap();
    dir.pointer = None;
    let reopened = dir.open(None);
    assert_eq!(reopened.current_kid(), 2);
    assert_eq!(reopened.len(), 3);
}

#[test]
fn pointer_at_absent_kid_falls_back_to_highest() {
    let mut dir = Dir::new();
    let mut kr = dir.open(None);
    dir.add(&mut kr, Some([1u8; 32])).unwrap();
    dir.pointer = Some(pointer_text(777));
    assert_eq!(dir.open(None).current_kid(), 1);
    dir.pointer = Some("not a kid\n".into());
    assert_eq!(dir.open(None).current_kid(), 1);
}

#[test]
fn torn_add_leaves_a_loadable_ring() {
    let mut dir = Dir::new();
    let mut kr = dir.open(None);
    dir.add(&mut kr, Some([1u8; 32])).unwrap();
    dir.write(2, &[8u8; 32]);
    let reopened = dir.open(None);
    assert_eq!(reopened.current_kid(), 1);
    assert_eq!(reopened.get(2), Some(&[8u8; 32]));
}

#[test]
fn malformed_key_file_is_named() {
    let mut dir = Dir::new();
    dir.files.insert("0003".into(), "not-hex".into());
    let err = dir.try_open(None).unwrap_err();
    assert_eq!(err, KeyringError::Malformed("0003".into()));
    assert_eq!(err.message(), "malformed key file 0003");
    assert!(!Keyring::is_provisioned(&dir.listing()));
}

#[test]
fn provisioned_once_a_key_is_there() {
    let mut dir = Dir::new();
    assert!(!Keyring::is_provisioned(&dir.listing()));
    dir.open(None);
    assert!(Keyring::is_provisioned(&dir.listing()));
}

#[test]
fn from_parts_needs_its_current_kid() {
    let mut keys = BTreeMap::new();
    keys.insert(3u16, [1u8; 32]);
    assert_eq!(
        Keyring::from_parts(keys.clone(), 4).unwrap_err(),
        KeyringError::UnknownKid(4)
    );
    let kr = Keyring::from_parts(keys, 3).unwrap();
    assert_eq!(kr.current_kid(), 3);
}

#[test]
fn kid_space_is_exhausted_at_its_end() {
    let mut keys = BTreeMap::new();
    keys.insert(Kid::MAX, [1u8; 32]);
    let mut kr = Keyring::from_parts(keys, Kid::MAX).unwrap();
    assert_eq!(kr.next_kid(), None);
    assert_eq!(
        kr.add_and_promote(Some([2u8; 32]), None).unwrap_err(),
        KeyringError::KidExhausted
    );
    assert_eq!(kr.copy().current_kid(), Kid::MAX);
}

#[test]
fn names_and_pointers_read_back() {
    for kid in [0u16, 7, 42, 999, 1000, 9999, 10000, 42000, Kid::MAX] {
        assert_eq!(key_file_kid(&kid_file_name(kid)), Some(kid));
        assert_eq!(read_pointer(&pointer_text(kid)), Some(kid));
    }
    assert_eq!(kid_file_name(10000), "10000");
    for name in ["1", "001", "00001", "09999", "65536", "99999", "100000", "0001.tmp", "-001", ""] {
        assert_eq!(key_file_kid(name), None, "{name}");
    }
    assert_eq!(read_pointer("70000\n"), None);
}

#[test]
fn a_promotion_past_four_digits_survives_a_restart() {
    let mut keys = BTreeMap::new();
    keys.insert(9999, [1u8; 32]);
    let mut kr = Keyring::from_parts(keys, 9999).unwrap();
    let kid = kr.add_and_promote(Some([2u8; 32]), None).unwrap();
    assert_eq!(kid, 10000);
    let mut dir = Dir::new();
    dir.write(9999, &[1u8; 32]);
    dir.write(10000, &[2u8; 32]);
    dir.pointer = Some(pointer_text(10000));
    let again = dir.open(None);
    assert_eq!(again.current_kid(), 10000);
    assert_eq!(again.get(9999), Some(&[1u8; 32]));
    assert_eq!(again.get(10000), Some(&[2u8; 32]));
    assert_eq!(again.len(), 2);
}

#[test]
fn names_list_in_generation_order() {
    let names: Vec<String> = [0u16, 1, 9, 10, 99, 100, 999, 1000, 9998, 9999]
        .iter()
        .map(|k| kid_file_name(*k))
        .collect();
    let mut sorted = names.clone();
    sorted.sort();
    assert_eq!(names, sorted);
}
