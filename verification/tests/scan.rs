use hgame_launcher::scan::{
    can_take_main_image, game_search_sql, ids_to_unregister, main_image_url, plan_game_insert,
    EsGame, NewGame, RegisteredGame,
};

fn es_game() -> EsGame {
    EsGame {
        id: 27000,
        gamename: "サノバウィッチ".to_string(),
        brandname: 1795,
        gyutto_id: None,
        dmm: None,
        dmm_genre: None,
        dmm_genre_2: None,
        dlsite_id: None,
        dlsite_domain: None,
        digiket: None,
        comike: None,
    }
}

#[test]
fn search_sql_quotes_the_title() {
    assert_eq!(
        game_search_sql("サノバ"),
        "SELECT id, brandname, gamename, gyutto_id, dmm, dmm_genre, dmm_genre_2, dlsite_id, dlsite_domain, digiket, comike FROM gamelist WHERE gamename LIKE 'サノバ%' LIMIT 1"
    );
}

#[test]
fn games_whose_folder_is_gone_are_unregistered() {
    let games = vec![
        RegisteredGame { id: 1, folder: Some("/games/a".to_string()) },
        RegisteredGame { id: 2, folder: Some("/games/b".to_string()) },
        RegisteredGame { id: 3, folder: None },
        RegisteredGame { id: 4, folder: Some("/games/c".to_string()) },
    ];
    let folders = vec!["/games/a".to_string(), "/games/c".to_string()];
    assert_eq!(ids_to_unregister(&games, &folders), vec![2, 3]);
    assert_eq!(ids_to_unregister(&games, &Vec::new()), vec![1, 2, 3, 4]);
    assert!(ids_to_unregister(&Vec::new(), &folders).is_empty());
}

#[test]
fn dmm_image_comes_first() {
    let mut g = es_game();
    g.dmm = Some("yuzu_0010".to_string());
    g.dmm_genre = Some("pcgame".to_string());
    g.dmm_genre_2 = Some("pc".to_string());
    g.dlsite_id = Some("RJ123456".to_string());
    g.dlsite_domain = Some("pro".to_string());
    assert_eq!(
        main_image_url(&g).unwrap(),
        "https://pics.dmm.co.jp/pcgame/pcgame/yuzu_0010/yuzu_0010pl.jpg"
    );
    g.dmm_genre_2 = Some("doujin".to_string());
    assert_eq!(
        main_image_url(&g).unwrap(),
        "https://pics.dmm.co.jp/pcgame/pcgame/yuzu_0010/yuzu_0010pr.jpg"
    );
}

#[test]
fn dlsite_image_uses_the_work_number() {
    let mut g = es_game();
    g.dlsite_id = Some("RJ123456".to_string());
    g.dlsite_domain = Some("pro".to_string());
    assert_eq!(
        main_image_url(&g).unwrap(),
        "http://img.dlsite.jp/modpub/images2/work/professional/RJ20000/RJ123456"
    );
    g.dlsite_domain = Some("pro2".to_string());
    assert!(main_image_url(&g).unwrap().contains("/professional/"));
    g.dlsite_domain = Some("maniax".to_string());
    g.dlsite_id = Some("RJ01005678".to_string());
    assert_eq!(
        main_image_url(&g).unwrap(),
        "http://img.dlsite.jp/modpub/images2/work/doujin/RJ0/RJ01005678"
    );
}

#[test]
fn dlsite_id_that_is_no_number_gives_no_image() {
    let mut g = es_game();
    g.dlsite_id = Some("RJabcdef".to_string());
    g.dlsite_domain = Some("maniax".to_string());
    assert!(can_take_main_image(&g));
    assert_eq!(main_image_url(&g), None);
}

#[test]
fn missing_data_gives_no_image() {
    let mut g = es_game();
    assert_eq!(main_image_url(&g), None);
    g.dmm = Some("x".to_string());
    g.dlsite_id = Some("RJ123456".to_string());
    assert_eq!(main_image_url(&g), None);
}

#[test]
fn short_dlsite_ids_cannot_be_cut() {
    let mut g = es_game();
    g.dlsite_id = Some("RJ12".to_string());
    g.dlsite_domain = Some("maniax".to_string());
    assert!(!can_take_main_image(&g));
    g.dlsite_domain = None;
    assert!(can_take_main_image(&g));
    g.dlsite_domain = Some("maniax".to_string());
    g.dlsite_id = Some("éa12345".to_string());
    assert!(can_take_main_image(&g));
    g.dlsite_id = Some("aé12345".to_string());
    assert!(!can_take_main_image(&g));
}

#[test]
fn found_games_are_recorded_with_their_id() {
    let mut g = es_game();
    g.dlsite_id = Some("RJ123456".to_string());
    g.dlsite_domain = Some("pro".to_string());
    match plan_game_insert("サノバウィッチ", "/games/サノバウィッチ", &vec![g, es_game()]) {
        NewGame::Found { es_id, name, main_image, library_registered, folder } => {
            assert_eq!(es_id, 27000);
            assert_eq!(name, "サノバウィッチ");
            assert!(main_image.is_some());
            assert!(library_registered);
            assert_eq!(folder, "/games/サノバウィッチ");
        }
        other => panic!("unexpected {other:?}"),
    }
}

#[test]
fn unknown_games_are_recorded_by_title() {
    match plan_game_insert("foo", "/games/foo", &Vec::new()) {
        NewGame::NotFound { name, library_registered, folder } => {
            assert_eq!(name, "foo");
            assert!(library_registered);
            assert_eq!(folder, "/games/foo");
        }
        other => panic!("unexpected {other:?}"),
    }
}
