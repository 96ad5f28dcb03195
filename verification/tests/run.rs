use ferrous_comics::config::Config;
use ferrous_comics::http::{ApiReply, Comic, FetchError};
use ferrous_comics::run::{backfill_candidates, version_line, Event, Run, Step};

fn make_config(limit: u32) -> Config {
    Config {
        mail_to: vec!["to@example.com".to_string()],
        mail_from: "from@example.com".to_string(),
        download: true,
        mail_attachment: false,
        smtp_server: "smtp.example.com".to_string(),
        smtp_port: 587,
        smtp_starttls: true,
        smtp_username: None,
        smtp_password: None,
        backfill_limit: limit,
    }
}

fn make_comic(num: u32) -> Comic {
    Comic {
        num,
        safe_title: "Test Comic".to_string(),
        img: "https://imgs.xkcd.com/comics/test.png".to_string(),
        alt: "Alt text here".to_string(),
        year: "2025".to_string(),
        month: "3".to_string(),
        day: "15".to_string(),
    }
}

/// A step in short.
fn name(step: &Step) -> String {
    match step {
        Step::Fetch(num) => format!("fetch {num}"),
        Step::MarkMissing(num) => format!("missing {num}"),
        Step::CheckSeen(comic) => format!("check {}", comic.num),
        Step::MarkSeen(comic) => format!("seen {}", comic.num),
        Step::Download(comic) => format!("download {}", comic.num),
        Step::MarkDownloaded(comic) => format!("downloaded {}", comic.num),
        Step::Mail { comic, attach } => format!("mail {} {attach}", comic.num),
        Step::MarkMailed(comic) => format!("mailed {}", comic.num),
        Step::Finished => "finished".to_string(),
        Step::Aborted => "aborted".to_string(),
    }
}

/// A world in which runs take place.
struct World {
    record: Vec<u32>,
    missing: Vec<u32>,
    unreachable: Vec<u32>,
    no_image: Vec<u32>,
    no_mail: Vec<u32>,
    mails: Vec<u32>,
}

impl World {
    fn new() -> World {
        World {
            record: vec![],
            missing: vec![],
            unreachable: vec![],
            no_image: vec![],
            no_mail: vec![],
            mails: vec![],
        }
    }

    /// Does what the step asks for.
    fn perform(&mut self, step: &Step) -> Event {
        let done = |failing: &Vec<u32>, num: u32| {
            if failing.contains(&num) {
                Event::Failed
            } else {
                Event::Done
            }
        };
        match step {
            Step::Fetch(num) => Event::Reply(if self.missing.contains(num) {
                ApiReply::Status(404)
            } else if self.unreachable.contains(num) {
                ApiReply::Unreachable
            } else {
                ApiReply::Described(make_comic(*num))
            }),
            Step::CheckSeen(comic) => Event::Seen(self.record.contains(&comic.num)),
            Step::MarkMissing(num) => {
                self.record.push(*num);
                Event::Done
            }
            Step::MarkSeen(comic) => {
                self.record.push(comic.num);
                Event::Done
            }
            Step::Download(comic) => done(&self.no_image, comic.num),
            Step::Mail { comic, .. } => {
                self.mails.push(comic.num);
                done(&self.no_mail, comic.num)
            }
            _ => Event::Done,
        }
    }

    /// A whole run, step by step.
    fn run(&mut self, config: &Config, latest: u32) -> Vec<String> {
        let last = self.record.iter().copied().max();
        let mut run = Run::start(config, make_comic(latest), last);
        let mut steps = vec![];
        loop {
            steps.push(name(&run.step));
            if matches!(run.step, Step::Finished | Step::Aborted) {
                return steps;
            }
            let event = self.perform(&run.step);
            run.advance(event);
        }
    }
}

#[test]
fn backfill_candidates_empty_db() {
    // No prior history + backfill enabled → deliver limit comics ending at latest
    assert_eq!(backfill_candidates(None, 100, 5), vec![96, 97, 98, 99, 100]);
}

#[test]
fn backfill_candidates_empty_db_limit_one() {
    // limit=1 must not underflow (100 - (1-1) = 100)
    assert_eq!(backfill_candidates(None, 100, 1), vec![100]);
}

#[test]
fn backfill_candidates_up_to_date() {
    // Already seen the latest — empty list
    assert_eq!(backfill_candidates(Some(100), 100, 5), Vec::<u32>::new());
}

#[test]
fn backfill_candidates_with_gap() {
    assert_eq!(backfill_candidates(Some(98), 101, 5), vec![99, 100, 101]);
}

#[test]
fn backfill_candidates_capped() {
    // Gap of 11 but limit=3 → only first 3
    assert_eq!(backfill_candidates(Some(90), 101, 3), vec![91, 92, 93]);
}

#[test]
fn backfill_candidates_limit_zero() {
    // limit=0 disables backfill — only latest
    assert_eq!(backfill_candidates(Some(98), 101, 0), vec![101]);
}

#[test]
fn candidates_at_the_edges() {
    assert_eq!(backfill_candidates(None, 3, 5), vec![0, 1, 2, 3]);
    assert_eq!(backfill_candidates(None, 0, 1), vec![0]);
    assert_eq!(backfill_candidates(None, 7, 0), vec![7]);
    assert_eq!(backfill_candidates(Some(200), 100, 5), Vec::<u32>::new());
    assert_eq!(backfill_candidates(Some(100), 100, 0), vec![100]);
    assert_eq!(backfill_candidates(Some(u32::MAX), u32::MAX, 5), vec![u32::MAX]);
    assert_eq!(backfill_candidates(Some(u32::MAX), 100, 5), Vec::<u32>::new());
    assert_eq!(backfill_candidates(Some(u32::MAX - 2), u32::MAX, u32::MAX), vec![
        u32::MAX - 1,
        u32::MAX
    ]);
    assert_eq!(backfill_candidates(None, u32::MAX, 2), vec![u32::MAX - 1, u32::MAX]);
}

#[test]
fn candidates_follow_the_last() {
    for last in 0..12u32 {
        for latest in 0..12u32 {
            for limit in 1..6u32 {
                let expected: Vec<u32> =
                    (last + 1..=latest).take(limit as usize).collect();
                assert_eq!(backfill_candidates(Some(last), latest, limit), expected);
            }
        }
    }
}

#[test]
fn first_run_fills_the_limit() {
    for limit in 1..10u32 {
        let nums = backfill_candidates(None, 9, limit);
        assert_eq!(nums.len(), limit as usize);
        assert_eq!(nums.last(), Some(&9));
    }
}

#[test]
fn a_run_with_download() {
    let mut world = World::new();
    let steps = world.run(&make_config(2), 10);
    assert_eq!(
        steps,
        vec![
            "fetch 9",
            "check 9",
            "seen 9",
            "download 9",
            "downloaded 9",
            "mail 9 false",
            "mailed 9",
            "check 10",
            "seen 10",
            "download 10",
            "downloaded 10",
            "mail 10 false",
            "mailed 10",
            "finished",
        ]
    );
    assert_eq!(world.record, vec![9, 10]);
}

#[test]
fn a_run_without_download() {
    let mut config = make_config(1);
    config.download = false;
    let steps = World::new().run(&config, 10);
    assert_eq!(steps, vec!["check 10", "seen 10", "mail 10 false", "mailed 10", "finished"]);
}

#[test]
fn images_are_attached_on_demand() {
    let mut config = make_config(1);
    config.mail_attachment = true;
    let steps = World::new().run(&config, 10);
    assert!(steps.contains(&"mail 10 true".to_string()));
}

#[test]
fn no_image_is_attached_that_was_not_downloaded() {
    let mut config = make_config(1);
    config.mail_attachment = true;
    config.download = false;
    let steps = World::new().run(&config, 10);
    assert!(steps.contains(&"mail 10 false".to_string()));
}

#[test]
fn nothing_to_do() {
    let mut world = World::new();
    world.record = vec![10];
    assert_eq!(world.run(&make_config(5), 10), vec!["finished"]);
    assert_eq!(world.run(&make_config(0), 10), vec!["check 10", "finished"]);
}

#[test]
fn missing_comics_are_put_on_record() {
    let mut world = World::new();
    world.record = vec![402];
    world.missing = vec![404];
    let config = make_config(2);
    let steps = world.run(&config, 406);
    assert!(steps.contains(&"missing 404".to_string()));
    assert_eq!(world.record, vec![402, 403, 404]);
    assert_eq!(world.mails, vec![403]);
    assert_eq!(world.run(&config, 406)[0], "fetch 405");
    assert_eq!(world.mails, vec![403, 405, 406]);
}

#[test]
fn unreachable_comics_are_left_out() {
    let mut world = World::new();
    world.record = vec![1];
    world.unreachable = vec![2];
    let steps = world.run(&make_config(5), 3);
    assert_eq!(&steps[..2], ["fetch 2", "check 3"]);
    assert_eq!(world.record, vec![1, 3]);
    assert_eq!(world.mails, vec![3]);
}

#[test]
fn comics_without_image_are_not_mailed() {
    let mut world = World::new();
    world.record = vec![1];
    world.no_image = vec![2];
    let steps = world.run(&make_config(5), 3);
    assert!(steps.contains(&"download 2".to_string()));
    assert!(!steps.contains(&"downloaded 2".to_string()));
    assert_eq!(world.mails, vec![3]);
    assert_eq!(world.record, vec![1, 2, 3]);
}

#[test]
fn no_comic_is_mailed_twice() {
    let mut world = World::new();
    world.no_mail = vec![3, 5];
    let config = make_config(2);
    for latest in [2, 2, 4, 5, 5, 6] {
        world.run(&config, latest);
    }
    let single = make_config(0);
    world.run(&single, 6);
    world.run(&single, 7);
    world.run(&single, 7);
    assert_eq!(world.mails, vec![1, 2, 3, 4, 5, 6, 7]);
}

#[test]
fn failed_mails_are_not_marked() {
    let mut world = World::new();
    world.no_mail = vec![4];
    let steps = world.run(&make_config(1), 4);
    assert_eq!(steps.last().unwrap(), "finished");
    assert!(steps.contains(&"mail 4 false".to_string()));
    assert!(!steps.contains(&"mailed 4".to_string()));
}

#[test]
fn why_a_comic_is_left_out() {
    let config = make_config(3);
    for (reply, error) in [
        (ApiReply::Status(500), FetchError::Status(500)),
        (ApiReply::Unreachable, FetchError::Unreachable),
        (ApiReply::Unreadable, FetchError::Unreadable),
        (
            ApiReply::Described(make_comic(1)),
            FetchError::WrongNumber { got: 1, wanted: 8 },
        ),
    ] {
        let mut run = Run::start(&config, make_comic(10), None);
        assert_eq!(name(&run.step), "fetch 8");
        assert_eq!(run.advance(Event::Reply(reply)), Some(error));
        assert_eq!(name(&run.step), "fetch 9");
    }
    let mut run = Run::start(&config, make_comic(10), None);
    assert_eq!(run.advance(Event::Reply(ApiReply::Status(404))), None);
    assert_eq!(name(&run.step), "missing 8");
}

#[test]
fn a_failing_database_ends_the_run() {
    let config = make_config(2);
    let done: [fn() -> Event; 6] = [
        || Event::Reply(ApiReply::Described(make_comic(9))),
        || Event::Seen(false),
        || Event::Done,
        || Event::Done,
        || Event::Done,
        || Event::Done,
    ];
    // Asked for the record, told of a comic, told of an image, told of a mail.
    for before in [1, 2, 4, 6] {
        let mut run = Run::start(&config, make_comic(10), None);
        for event in &done[..before] {
            run.advance(event());
        }
        assert_eq!(run.advance(Event::Failed), None);
        assert_eq!(name(&run.step), "aborted");
        run.advance(Event::Done);
        assert_eq!(name(&run.step), "aborted");
    }
    let mut run = Run::start(&config, make_comic(10), None);
    run.advance(Event::Reply(ApiReply::Status(404)));
    run.advance(Event::Failed);
    assert_eq!(name(&run.step), "aborted");
}

#[test]
fn a_finished_run_stays_finished() {
    let mut run = Run::start(&make_config(5), make_comic(10), Some(10));
    assert_eq!(name(&run.step), "finished");
    run.advance(Event::Failed);
    assert_eq!(name(&run.step), "finished");
}

#[test]
fn an_answer_to_another_question_ends_the_run() {
    let mut run = Run::start(&make_config(1), make_comic(10), None);
    run.advance(Event::Done);
    assert_eq!(name(&run.step), "aborted");
}

#[test]
fn a_run_takes_fewer_than_eight_steps_for_a_comic() {
    for limit in 1..6u32 {
        let steps = World::new().run(&make_config(limit), 50);
        assert!(steps.len() <= 8 * limit as usize);
    }
}

#[test]
fn version_in_words() {
    assert_eq!(
        version_line("ferrous-comics", "1.4.6", "abc1234"),
        "ferrous-comics 1.4.6 (abc1234)"
    );
}

#[test]
fn every_new_comic_is_mailed() {
    let mut world = World::new();
    world.record = vec![4];
    let config = make_config(3);
    world.run(&config, 8);
    assert_eq!(world.mails, vec![5, 6, 7]);
    world.run(&config, 8);
    assert_eq!(world.mails, vec![5, 6, 7, 8]);
    world.record = vec![8, 20];
    world.run(&make_config(0), 10);
    assert_eq!(world.mails, vec![5, 6, 7, 8, 10]);
}
