use skull_alchemy::error::EngineError;
use skull_alchemy::potion::{ImageInfo, StoreContractInfo};
use skull_alchemy::rewind::{Config, Rewinder, TokenTime};

fn rewinder(cooldown: u64) -> Rewinder {
    Rewinder {
        config: Config {
            nft_contract: StoreContractInfo { code_hash: "h".to_string(), address: b"skulls".to_vec() },
            halt: false,
            admins: vec![b"admin".to_vec()],
            viewing_key: "key".to_string(),
            cooldown,
        },
        times: Vec::new(),
    }
}

fn names() -> Vec<String> {
    vec!["Background".to_string(), "Skull".to_string(), "Eyes".to_string()]
}

fn altered() -> ImageInfo {
    ImageInfo {
        current: vec![7, 1, 2],
        previous: vec![1, 1, 0],
        natural: vec![1, 0, 0],
        svg_server: Some("server".to_string()),
    }
}

#[test]
fn rewind_restores_the_previous_image() {
    let mut r = rewinder(100);
    let me = "me".to_string();
    let token = "42".to_string();
    let rewound = r.try_rewind(&me, &token, &me, altered(), &names(), 5000).unwrap();
    assert_eq!(rewound.image_info.current, vec![1, 1, 0]);
    assert_eq!(rewound.image_info.previous, vec![1, 1, 0]);
    assert_eq!(rewound.image_info.natural, vec![1, 0, 0]);
    assert_eq!(rewound.image_info.svg_server, Some("server".to_string()));
    assert_eq!(rewound.categories_rewound, vec!["Background".to_string(), "Eyes".to_string()]);
    assert_eq!(r.last_rewind_time(&token), Some(5000));
    // right away there is nothing to go back to, and no time is kept
    assert_eq!(
        r.try_rewind(&me, &token, &me, rewound.image_info.clone(), &names(), 5000),
        Err(EngineError::NothingToRewind)
    );
    assert_eq!(r.last_rewind_time(&token), Some(5000));
    assert_eq!(
        r.try_rewind(&me, &token, &me, altered(), &names(), 5099),
        Err(EngineError::CooldownActive)
    );
    // nor once cooled down
    assert_eq!(
        r.try_rewind(&me, &token, &me, rewound.image_info, &names(), 5100),
        Err(EngineError::NothingToRewind)
    );
    assert_eq!(r.last_rewind_time(&token), Some(5000));
    // a new alteration can be rewound again
    assert!(r.try_rewind(&me, &token, &me, altered(), &names(), 5100).is_ok());
    assert_eq!(r.last_rewind_time(&token), Some(5100));
    assert_eq!(r.times.len(), 1);
}

#[test]
fn a_second_rewind_finds_nothing_to_rewind() {
    let mut r = rewinder(1000);
    let me = "me".to_string();
    let token = "42".to_string();
    let rewound = r.try_rewind(&me, &token, &me, altered(), &names(), 5000).unwrap();
    assert_eq!(
        r.try_rewind(&me, &token, &me, rewound.image_info, &names(), 5000),
        Err(EngineError::NothingToRewind)
    );
}

#[test]
fn rewind_refusals() {
    let mut r = rewinder(100);
    let me = "me".to_string();
    let token = "42".to_string();
    assert_eq!(
        r.try_rewind(&"you".to_string(), &token, &me, altered(), &names(), 1),
        Err(EngineError::Unauthorized)
    );
    let mut image = altered();
    image.current[1] = 255;
    assert_eq!(r.try_rewind(&me, &token, &me, image, &names(), 1), Err(EngineError::NotFullyRevealed));
    let mut image = altered();
    image.previous[2] = 255;
    assert_eq!(r.try_rewind(&me, &token, &me, image, &names(), 1), Err(EngineError::PreviousNotRevealed));
    // an image that lacks a category differs in it
    let mut image = altered();
    image.previous = vec![1, 1];
    let mut short = rewinder(100);
    let rewound = short.try_rewind(&me, &token, &me, image, &names(), 1).unwrap();
    assert_eq!(rewound.image_info.current, vec![1, 1]);
    assert_eq!(rewound.categories_rewound, vec!["Background".to_string(), "Eyes".to_string()]);
    assert_eq!(r.try_set_status(&b"nobody".to_vec(), true), Err(EngineError::Unauthorized));
    assert_eq!(r.try_set_status(&b"admin".to_vec(), true), Ok(true));
    assert_eq!(r.try_rewind(&me, &token, &me, altered(), &names(), 1), Err(EngineError::Halted));
    assert!(r.times.is_empty());
}

#[test]
fn rewind_settings_and_times() {
    let mut r = rewinder(100);
    let admin = b"admin".to_vec();
    assert_eq!(r.try_set_cooldown(&admin, 7), Ok(7));
    assert_eq!(r.config.cooldown, 7);
    assert_eq!(r.try_set_cooldown(&b"x".to_vec(), 9), Err(EngineError::Unauthorized));
    assert_eq!(r.try_add_admins(&admin, &vec![b"two".to_vec(), admin.clone()]), Ok(true));
    assert_eq!(r.config.admins, vec![admin.clone(), b"two".to_vec()]);
    assert_eq!(r.try_add_admins(&admin, &vec![b"two".to_vec()]), Ok(false));
    assert_eq!(r.try_remove_admins(&b"two".to_vec(), &vec![admin.clone()]), Ok(true));
    assert_eq!(r.config.admins, vec![b"two".to_vec()]);
    assert_eq!(r.try_remove_admins(&admin, &vec![]), Err(EngineError::Unauthorized));
    let me = "me".to_string();
    r.try_rewind(&me, &"1".to_string(), &me, altered(), &names(), 50).unwrap();
    assert_eq!(
        r.query_rewind_times(&vec!["1".to_string(), "2".to_string()], true),
        Ok(vec![
            TokenTime { token_id: "1".to_string(), timestamp: Some(50) },
            TokenTime { token_id: "2".to_string(), timestamp: None },
        ])
    );
    assert_eq!(r.query_rewind_times(&vec![], false), Err(EngineError::Unauthorized));
}
