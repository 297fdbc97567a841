use cuberef_game_state::database::{GameDatabase, InMemGameDabase, KeySpace};

#[test]
fn identifiers_of_the_key_spaces() {
    assert_eq!(KeySpace::Metadata.identifier(), b'0');
    assert_eq!(KeySpace::MapchunkData.identifier(), b'm');
    assert_eq!(KeySpace::Plugin.identifier(), b'p');
    assert_eq!(KeySpace::Inventory.identifier(), b'i');
    assert_eq!(KeySpace::Player.identifier(), b'P');
    assert_eq!(KeySpace::UserMeta.identifier(), b'u');
}

#[test]
fn make_key_puts_the_identifier_first() {
    assert_eq!(KeySpace::Inventory.make_key(&[1, 2, 3]), vec![b'i', 1, 2, 3]);
    assert_eq!(KeySpace::Player.make_key(b"alice"), b"Palice".to_vec());
    assert_eq!(KeySpace::Metadata.make_key(&[]), vec![b'0']);
}

#[test]
fn key_spaces_do_not_collide() {
    let spaces = [
        KeySpace::Metadata,
        KeySpace::MapchunkData,
        KeySpace::Plugin,
        KeySpace::Inventory,
        KeySpace::Player,
        KeySpace::UserMeta,
    ];
    let ids: [&[u8]; 4] = [b"", b"i", b"Px", b"alice"];
    for (a, space_a) in spaces.iter().enumerate() {
        for (b, space_b) in spaces.iter().enumerate() {
            for id_a in ids {
                for id_b in ids {
                    let same = space_a.make_key(id_a) == space_b.make_key(id_b);
                    assert_eq!(same, a == b && id_a == id_b);
                }
            }
        }
    }
}

#[test]
fn in_memory_store_keeps_the_latest_value() {
    let mut db = InMemGameDabase::new();
    assert_eq!(db.get(b"k").unwrap(), None);
    db.put(b"k", b"one").unwrap();
    db.put(b"other", b"x").unwrap();
    assert_eq!(db.get(b"k").unwrap(), Some(b"one".to_vec()));
    db.put(b"k", b"two").unwrap();
    assert_eq!(db.get(b"k").unwrap(), Some(b"two".to_vec()));
    assert_eq!(db.get(b"other").unwrap(), Some(b"x".to_vec()));
    assert_eq!(db.get(b"").unwrap(), None);
    db.put(b"", b"").unwrap();
    assert_eq!(db.get(b"").unwrap(), Some(vec![]));
    db.flush().unwrap();
    assert_eq!(db.get(b"k").unwrap(), Some(b"two".to_vec()));
}
