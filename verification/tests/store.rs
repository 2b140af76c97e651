use phoenix_rec::data_types::DataType;
use phoenix_rec::decimal::Real;
use phoenix_rec::error::RecError;
use phoenix_rec::server::add_data;
use phoenix_rec::{
    add_command, add_comment, clear_data, delete_data, get_data_name, get_left_total_distance,
    get_rec_data, get_rec_index, get_rec_len, get_rec_start_time, get_right_total_distance,
    get_time, save_data, save_record_data, set_server, update_total_distance, write_data, Command,
    Data, Direction, RecData, Recorder,
};

fn dec(text: &str) -> Real {
    Real::from_text(text).expect("a reading")
}

fn from_float(x: f32) -> Real {
    dec(&format!("{}", x))
}

#[test]
fn a_new_recorder_is_empty() {
    let r = Recorder::new();
    assert_eq!(get_rec_len(&r), 0);
    assert_eq!(get_rec_start_time(&r), 0);
    assert_eq!(get_time(&r, 5000), None);
    assert_eq!(get_right_total_distance(&r), Real::zero());
    assert_eq!(get_left_total_distance(&r), Real::zero());
    assert_eq!(get_data_name(&r), "data_");
    assert!(!r.server);
    assert!(r.queue.is_empty());
    let d = RecData::default();
    assert!(d.data.is_empty() && d.commands.is_empty() && d.first_time);
}

#[test]
fn commands_have_their_text() {
    assert_eq!(Command::Turn(90).to_string(), "Turn(90)");
    assert_eq!(Command::TurnRadius(3, -45).to_string(), "TurnRadius(3, -45)");
    assert_eq!(Command::DriveDist(100).to_string(), "DriveDist(100)");
    assert_eq!(Command::DriveLine(-1).to_string(), "DriveLine(-1)");
    assert_eq!(Command::AlignDist(0).to_string(), "AlignDist(0)");
    assert_eq!(Command::AlignLine(7).to_string(), "AlignLine(7)");
    assert_eq!(Command::TurnOneWheel(30, Direction::Left).to_string(), "TurnOneWheel(30, Left)");
    assert_eq!(Command::TurnOneWheel(-30, Direction::Right).to_string(), "TurnOneWheel(-30, Right)");
    assert_eq!(Direction::Right.to_string(), "Right");
}

#[test]
fn a_command_is_noted_twice() {
    let mut r = Recorder::new();
    add_command(&mut r, Command::TurnRadius(3, 4));
    add_comment(&mut r, "battery low".to_string());
    assert_eq!(get_rec_len(&r), 2);
    assert_eq!(get_rec_index(&r, 0), Data::Command("TurnRadius(3, 4)".to_string()));
    assert_eq!(get_rec_index(&r, 1), Data::Command("battery low".to_string()));
    assert_eq!(r.rec.commands, vec![Command::TurnRadius(3, 4)]);
    assert_eq!(get_rec_start_time(&r), 0);
}

#[test]
fn the_session_name_joins_the_commands_without_spaces() {
    let mut r = Recorder::new();
    add_command(&mut r, Command::Turn(90));
    assert_eq!(get_data_name(&r), "data_Turn(90)");
    add_command(&mut r, Command::TurnRadius(3, 4));
    add_command(&mut r, Command::TurnOneWheel(5, Direction::Left));
    assert_eq!(get_data_name(&r), "data_Turn(90)_TurnRadius(3,4)_TurnOneWheel(5,Left)");
}

#[test]
fn the_first_record_starts_the_session() {
    let mut r = Recorder::new();
    assert_eq!(save_data(&mut r, 1000, vec![DataType::Distance(5)]), Ok(()));
    assert_eq!(get_rec_start_time(&r), 1000);
    assert_eq!(save_data(&mut r, 1250, vec![DataType::Color(1, 2), DataType::Distance(6)]), Ok(()));
    assert_eq!(get_rec_start_time(&r), 1000);
    assert_eq!(get_rec_index(&r, 0), Data::RecordData(0, vec![DataType::Distance(5)]));
    assert_eq!(
        get_rec_index(&r, 1),
        Data::RecordData(250, vec![DataType::Color(1, 2), DataType::Distance(6)])
    );
    assert_eq!(get_time(&r, 1600), Some(600));
    assert_eq!(get_time(&r, 900), Some(0));
    assert!(r.queue.is_empty());
}

#[test]
fn duplicate_kinds_are_refused_and_nothing_changes() {
    let mut r = Recorder::new();
    set_server(&mut r, true);
    add_comment(&mut r, "before".to_string());
    let refused = save_data(&mut r, 77, vec![DataType::Color(1, 2), DataType::Distance(3), DataType::Color(4, 5)]);
    assert_eq!(refused, Err(RecError::DuplicateField));
    assert_eq!(get_rec_len(&r), 1);
    assert_eq!(get_rec_start_time(&r), 0);
    assert!(r.queue.is_empty());
    let replay = save_record_data(&mut r, Data::RecordData(1, vec![DataType::Distance(3), DataType::Distance(3)]));
    assert_eq!(replay, Err(RecError::DuplicateField));
    assert_eq!(get_rec_len(&r), 1);
}

#[test]
fn cumulative_distance() {
    let mut r = Recorder::new();
    assert_eq!(update_total_distance(&mut r, from_float(1.0), from_float(2.0)), Ok(()));
    assert_eq!(get_right_total_distance(&r), from_float(0.0));
    assert_eq!(get_left_total_distance(&r), from_float(0.0));
    assert_eq!(update_total_distance(&mut r, from_float(3.0), from_float(4.0)), Ok(()));
    assert_eq!(get_right_total_distance(&r), from_float(3.0));
    assert_eq!(get_left_total_distance(&r), from_float(4.0));
    let sample = DataType::DrivenDistance(from_float(0.5), from_float(0.5));
    assert_eq!(save_data(&mut r, 10, vec![DataType::Distance(1), sample]), Ok(()));
    assert_eq!(
        get_rec_index(&r, 0),
        Data::RecordData(0, vec![DataType::Distance(1), DataType::DrivenDistance(from_float(3.5), from_float(4.5))])
    );
    assert_eq!(get_right_total_distance(&r), from_float(3.0));
}

#[test]
fn totals_out_of_range_are_refused() {
    let mut r = Recorder::new();
    let big = dec("340282366920938463463374607431768211455");
    assert_eq!(update_total_distance(&mut r, big, big), Ok(()));
    assert_eq!(update_total_distance(&mut r, big, dec("1")), Ok(()));
    assert_eq!(update_total_distance(&mut r, dec("1"), dec("1")), Err(RecError::Overflow));
    assert_eq!(get_right_total_distance(&r), big);
    assert_eq!(get_left_total_distance(&r), dec("1"));
    let refused = save_data(&mut r, 5, vec![DataType::DrivenDistance(dec("0.5"), dec("0"))]);
    assert_eq!(refused, Err(RecError::Overflow));
    assert_eq!(get_rec_len(&r), 0);
    assert_eq!(get_rec_start_time(&r), 0);
}

#[test]
fn a_serving_recorder_queues_what_it_stores() {
    let mut r = Recorder::new();
    update_total_distance(&mut r, dec("0"), dec("0")).unwrap();
    update_total_distance(&mut r, dec("1"), dec("2")).unwrap();
    set_server(&mut r, true);
    save_data(&mut r, 3, vec![DataType::DrivenDistance(dec("1"), dec("1"))]).unwrap();
    let stored = Data::RecordData(0, vec![DataType::DrivenDistance(dec("2"), dec("3"))]);
    assert_eq!(r.queue, vec![stored.clone()]);
    assert_eq!(get_rec_index(&r, 0), stored);
    set_server(&mut r, false);
    save_data(&mut r, 4, vec![DataType::Distance(1)]).unwrap();
    assert_eq!(r.queue.len(), 1);
    add_data(&mut r, Data::Command("note".to_string()));
    assert_eq!(r.queue.len(), 2);
    assert_eq!(get_rec_len(&r), 2);
}

#[test]
fn a_replayed_entry_is_stored_as_it_is() {
    let mut r = Recorder::new();
    update_total_distance(&mut r, dec("0"), dec("0")).unwrap();
    update_total_distance(&mut r, dec("1"), dec("2")).unwrap();
    set_server(&mut r, true);
    let entry = Data::RecordData(40, vec![DataType::DrivenDistance(dec("5"), dec("6"))]);
    assert_eq!(save_record_data(&mut r, entry.clone()), Ok(()));
    assert_eq!(get_rec_index(&r, 0), entry);
    assert!(r.queue.is_empty());
    assert_eq!(get_rec_start_time(&r), 0);
}

#[test]
fn clearing_resets_the_store_only() {
    let mut r = Recorder::new();
    set_server(&mut r, true);
    add_command(&mut r, Command::Turn(1));
    update_total_distance(&mut r, dec("1"), dec("1")).unwrap();
    update_total_distance(&mut r, dec("1"), dec("1")).unwrap();
    save_data(&mut r, 9, vec![DataType::Distance(1)]).unwrap();
    clear_data(&mut r);
    assert_eq!(get_rec_len(&r), 0);
    assert_eq!(get_rec_start_time(&r), 0);
    assert_eq!(get_data_name(&r), "data_");
    assert_eq!(get_right_total_distance(&r), Real::zero());
    assert!(r.rec.first_time);
    assert!(r.server);
    assert_eq!(r.queue.len(), 1);
    update_total_distance(&mut r, dec("7"), dec("7")).unwrap();
    assert_eq!(get_right_total_distance(&r), Real::zero());
}

#[test]
fn deleting_drops_the_oldest_entries() {
    let mut r = Recorder::new();
    for i in 0..5 {
        add_comment(&mut r, format!("c{}", i));
    }
    delete_data(&mut r, 2);
    assert_eq!(get_rec_len(&r), 3);
    assert_eq!(get_rec_index(&r, 0), Data::Command("c2".to_string()));
    delete_data(&mut r, 7);
    assert_eq!(get_rec_len(&r), 3);
    delete_data(&mut r, 4);
    assert_eq!(get_rec_len(&r), 3);
    delete_data(&mut r, 0);
    assert_eq!(get_rec_len(&r), 3);
    delete_data(&mut r, 1);
    assert_eq!(get_rec_len(&r), 2);
    assert_eq!(get_rec_index(&r, 0), Data::Command("c3".to_string()));
    assert_eq!(get_rec_index(&r, 1), Data::Command("c4".to_string()));
}

#[test]
fn deleting_as_many_as_there_are_leaves_none() {
    let mut r = Recorder::new();
    clear_data(&mut r);
    add_comment(&mut r, "a".to_string());
    add_comment(&mut r, "b".to_string());
    delete_data(&mut r, 2);
    assert_eq!(get_rec_len(&r), 0);
    add_comment(&mut r, "c".to_string());
    assert_eq!(get_rec_index(&r, 0), Data::Command("c".to_string()));
    delete_data(&mut r, 2);
    assert_eq!(get_rec_len(&r), 1);
    delete_data(&mut r, 1);
    assert_eq!(get_rec_len(&r), 0);
    delete_data(&mut r, 0);
    assert_eq!(get_rec_len(&r), 0);
}

#[test]
fn a_copy_of_the_store_holds_the_same() {
    let mut r = Recorder::new();
    add_command(&mut r, Command::DriveDist(10));
    save_data(&mut r, 2, vec![DataType::RGB((1, 2, 3), (4, 5, 6))]).unwrap();
    update_total_distance(&mut r, dec("1"), dec("1")).unwrap();
    let copy = get_rec_data(&r);
    assert_eq!(copy.data, r.rec.data);
    assert_eq!(copy.commands, r.rec.commands);
    assert_eq!(copy.start_time, 2);
    assert_eq!(copy.first_time, false);
}

#[test]
fn sparse_export() {
    let mut r = Recorder::new();
    save_data(&mut r, 1000, vec![DataType::Distance(5)]).unwrap();
    save_data(&mut r, 1010, vec![DataType::Color(3, 4)]).unwrap();
    let text = write_data(&r, "01-02-2024", "10:00:00", "tester", "robot");
    let expected = "time, right color, left color, dist\n\
                    # Phoenix data\n\
                    # Created on 01-02-2024 at 10:00:00 by tester on robot\n\
                    # data_\n\
                    0, null, null, 5\n\
                    10, 3, 4\n";
    assert_eq!(text, expected);
}

#[test]
fn export_keeps_comments_in_their_place() {
    let mut r = Recorder::new();
    add_command(&mut r, Command::TurnRadius(3, 4));
    save_data(&mut r, 50, vec![DataType::RGB((1, 2, 3), (4, 5, 6)), DataType::SyncError(dec("0.25"))]).unwrap();
    add_comment(&mut r, "halfway".to_string());
    save_data(&mut r, 75, vec![DataType::CurTarSpeeds(7, 8), DataType::Null(2)]).unwrap();
    save_data(&mut r, 80, vec![]).unwrap();
    let text = write_data(&r, "d", "t", "u", "h");
    let expected = "time, sync error, right r, right g, right b, left r, left g, left b, current speed, target speed\n\
                    # Phoenix data\n\
                    # Created on d at t by u on h\n\
                    # data_TurnRadius(3,4)\n\
                    # TurnRadius(3, 4)\n\
                    0, 0.25, 1, 2, 3, 4, 5, 6\n\
                    # halfway\n\
                    25, null, null, null, null, null, null, null, null, null, 7, 8\n\
                    30, \n";
    assert_eq!(text, expected);
}

#[test]
fn export_of_an_empty_store() {
    let r = Recorder::new();
    let text = write_data(&r, "d", "t", "u", "h");
    assert_eq!(text, "time, \n# Phoenix data\n# Created on d at t by u on h\n# data_\n");
}

#[test]
fn export_renders_a_laid_out_record_as_it_stands() {
    let mut r = Recorder::new();
    save_record_data(&mut r, Data::RecordDataOption(9, vec![None, Some(DataType::Color(1, 2)), None])).unwrap();
    save_record_data(&mut r, Data::RecordData(12, vec![DataType::Distance(4)])).unwrap();
    let text = write_data(&r, "d", "t", "u", "h");
    assert_eq!(
        text,
        "time, dist\n# Phoenix data\n# Created on d at t by u on h\n# data_\n9, 1, 2, null\n12, 4\n"
    );
}

#[test]
fn totals_outside_the_numbers_are_kept() {
    let mut r = Recorder::new();
    update_total_distance(&mut r, dec("0"), dec("0")).unwrap();
    assert_eq!(update_total_distance(&mut r, from_float(f32::INFINITY), from_float(2.5)), Ok(()));
    assert_eq!(update_total_distance(&mut r, from_float(1.0), from_float(f32::NAN)), Ok(()));
    assert_eq!(get_right_total_distance(&r), Real::Infinite(false));
    assert_eq!(get_left_total_distance(&r), Real::NotANumber);
    let sample = DataType::DrivenDistance(from_float(f32::NEG_INFINITY), from_float(1.0));
    assert_eq!(save_data(&mut r, 7, vec![sample, DataType::SyncError(Real::NotANumber)]), Ok(()));
    assert_eq!(
        get_rec_index(&r, 0),
        Data::RecordData(
            0,
            vec![
                DataType::DrivenDistance(Real::NotANumber, Real::NotANumber),
                DataType::SyncError(Real::NotANumber),
            ]
        )
    );
    let text = write_data(&r, "d", "t", "u", "h");
    assert!(text.ends_with("0, NaN, NaN, NaN\n"));
}
