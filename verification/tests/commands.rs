use aah_cv::controller::{point_in_rect, Controller};
use aah_cv::deploy::{avatar_rect, is_available, DeployAnalyzer};
use aah_cv::error::MatchError;
use aah_cv::image::Image;
use aah_cv::local_service::{transport_request, InputSwipe, ScreenCap, ShellCommand};
use aah_cv::rect::Rect;

#[test]
fn test_screencap() {
    let request = transport_request("127.0.0.1:16384");
    assert_eq!(request, "host:transport:127.0.0.1:16384");
    let res = ScreenCap::new().raw_command();
    assert_eq!(res, "shell:screencap -p");
    println!("{}", res.len())
}

#[test]
fn test_minitouch() {
    let request = transport_request("127.0.0.1:16384");
    assert_eq!(request, "host:transport:127.0.0.1:16384");
    let res = ShellCommand::new("/data/local/tmp/minitouch -h".to_string()).raw_command();
    assert_eq!(res, "shell:/data/local/tmp/minitouch -h");
    println!("{res}")
}

#[test]
fn input_swipe_writes_its_numbers_in_decimal() {
    let swipe = InputSwipe::new((100, 200), (-30, 4000), 1500);
    assert_eq!(swipe.raw_command(), "shell:input swipe 100 200 -30 4000 1500");
    let swipe = InputSwipe::new((0, u32::MAX), (i32::MIN, i32::MAX), u128::MAX);
    assert_eq!(
        swipe.raw_command(),
        "shell:input swipe 0 4294967295 -2147483648 2147483647 340282366920938463463374607431768211455"
    );
}

#[test]
fn controller_words_its_commands() {
    let controller = Controller::connect("127.0.0.1:16384", (1920, 1080));
    assert_eq!(controller.serial, "127.0.0.1:16384");
    assert_eq!((controller.width, controller.height), (1920, 1080));
    assert_eq!(controller.click(12, 345), "shell input tap 12 345");
    assert_eq!(controller.swipe((1, 2), (30, 40), 500), "shell input swipe 1 2 30 40 500");
    assert_eq!(controller.press_home(), "shell input keyevent HOME");
    assert_eq!(controller.press_esc(), "shell input keyevent 111");
}

#[test]
fn click_in_rect_taps_inside_the_rectangle() {
    let controller = Controller::connect("127.0.0.1:16384", (1920, 1080));
    let rect = Rect { x: 100, y: 50, width: 3, height: 2 };
    for _ in 0..50 {
        let command = controller.click_in_rect(rect);
        let mut parts = command.strip_prefix("shell input tap ").unwrap().split(' ');
        let x: u32 = parts.next().unwrap().parse().unwrap();
        let y: u32 = parts.next().unwrap().parse().unwrap();
        assert!(parts.next().is_none());
        assert!((100..103).contains(&x));
        assert!((50..52).contains(&y));
    }
    assert_eq!(point_in_rect(rect, 7, 9), (101, 51));
    assert_eq!(point_in_rect(rect, u32::MAX, 0), (100, 50));
}

#[test]
fn deploy_card_geometry() {
    let badge = Rect { x: 400, y: 900, width: 30, height: 30 };
    assert_eq!(avatar_rect(badge), Rect { x: 345, y: 960, width: 80, height: 100 });
    let left = Rect { x: 20, y: u32::MAX - 5, width: 30, height: 30 };
    assert_eq!(avatar_rect(left), Rect { x: 0, y: u32::MAX, width: 80, height: 100 });
    assert!(!is_available(90));
    assert!(is_available(91));
}

fn image(rows: &[Vec<i64>]) -> Image {
    let mut values: Vec<i64> = Vec::new();
    for row in rows {
        values.extend(row.iter().copied());
    }
    Image::from_values(&values, rows[0].len() as u32, rows.len() as u32).unwrap()
}

#[test]
fn deploy_analyzer_names_the_operator_on_a_card() {
    let analyzer = DeployAnalyzer::new();
    assert!(!analyzer.uses_cache());
    let badge = Rect { x: 400, y: 900, width: 30, height: 30 };
    let crop = image(&[vec![10, 7], vec![0, 0]]);
    assert_eq!(analyzer.deploy_card(badge, 120, &crop).err(), Some(MatchError::NoCandidates));
    let names = vec!["char_285_medic2".to_string(), "char_502_nblade".to_string()];
    let avatars = vec![
        image(&[vec![0, 3, 6, 9], vec![5, 9, 2, 6], vec![10, 4, 9, 3], vec![4, 10, 5, 0]]),
        image(&[vec![0, 7, 1, 8], vec![2, 10, 7, 6], vec![4, 0, 0, 4], vec![6, 3, 6, 2]]),
    ];
    let analyzer = analyzer.use_cache().with_opers(names, avatars).unwrap();
    assert!(analyzer.uses_cache());
    let card = analyzer.deploy_card(badge, 120, &crop).unwrap();
    assert_eq!(card.oper_name, "char_502_nblade");
    assert_eq!(card.rect, Rect { x: 345, y: 960, width: 80, height: 100 });
    assert!(card.available);
    let card = analyzer.deploy_card(badge, 90, &crop).unwrap();
    assert!(!card.available);
    let mismatched = DeployAnalyzer::new().with_opers(vec!["a".to_string()], Vec::new());
    assert_eq!(mismatched.err(), Some(MatchError::DimensionMismatch));
    let empty = DeployAnalyzer::new().with_opers(Vec::new(), Vec::new()).unwrap();
    assert_eq!(empty.deploy_card(badge, 120, &crop).err(), Some(MatchError::NoCandidates));
}

fn avatar(k: i64) -> Image {
    let mut values: Vec<i64> = Vec::new();
    for y in 0..4i64 {
        for x in 0..4i64 {
            values.push((x * (k + 2) + y * (2 * k + 3) + x * y * (k + 1) + k * k) % (11 + k));
        }
    }
    Image::from_values(&values, 4, 4).unwrap()
}

#[test]
fn test_deploy_analyzer() {
    let names: Vec<String> = vec![
        "char_285_medic2",
        "char_502_nblade",
        "char_500_noirc",
        "char_503_rang",
        "char_501_durin",
        "char_284_spot",
        "char_212_ansel",
        "char_208_melan",
        "char_151_myrtle",
    ]
    .into_iter()
    .map(|s| s.to_string())
    .collect();
    let avatars: Vec<Image> = (0..9).map(avatar).collect();
    let analyzer = DeployAnalyzer::new().with_opers(names, avatars).unwrap();
    let seen = image(&[vec![8, 4], vec![9, 10]]);
    let badge = Rect { x: 1000, y: 810, width: 40, height: 40 };
    let card = analyzer.deploy_card(badge, 200, &seen).unwrap();
    println!("{:?}", card);
    assert_eq!(card.oper_name, "char_501_durin");
    assert_eq!(card.rect, Rect { x: 945, y: 870, width: 80, height: 100 });
    assert!(card.available);
}

#[test]
fn test_controller() {
    let controller = Controller::connect("127.0.0.1:16384", (2560, 1440));
    assert_eq!(controller.serial, "127.0.0.1:16384");
    assert_eq!(controller.width, 2560);
    assert_eq!(controller.height, 1440);
}
