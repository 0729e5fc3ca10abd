use palit_led::cli::{
    brightness_arg, color_hex, command, hex_line, initial_colors, note_color, opt_value,
    parse_color, parse_gpu_list, select_gpus, sleep_step, Command,
};
use palit_led::config::GpuSel;

fn args(v: &[&str]) -> Vec<String> {
    v.iter().map(|s| s.to_string()).collect()
}

#[test]
fn parse_color_reads_rrggbb() {
    assert_eq!(parse_color("FF0000"), Ok((255, 0, 0)));
    assert_eq!(parse_color("#00ff7f"), Ok((0, 255, 0x7f)));
    assert_eq!(parse_color("##123456"), Ok((0x12, 0x34, 0x56)));
}

#[test]
fn parse_color_errors() {
    assert_eq!(parse_color("FFF"), Err("expected RRGGBB hex, got \"FFF\"".to_string()));
    assert_eq!(parse_color("#"), Err("expected RRGGBB hex, got \"\"".to_string()));
    assert_eq!(parse_color("GG0000"), Err("bad hex \"GG0000\"".to_string()));
    assert_eq!(parse_color("-12345"), Err("bad hex \"-12345\"".to_string()));
    // RRGGBB means six hex digits: a sign is no digit
    assert_eq!(parse_color("+12345"), Err("bad hex \"+12345\"".to_string()));
    assert_eq!(parse_color("#+ABCDE"), Err("bad hex \"+ABCDE\"".to_string()));
    // six bytes but three characters
    assert_eq!(parse_color("ééé"), Err("bad hex \"ééé\"".to_string()));
    assert_eq!(parse_color("éééé"), Err("expected RRGGBB hex, got \"éééé\"".to_string()));
}

#[test]
fn default_static_color_is_green() {
    let s = palit_led::config::StaticCfg::default();
    assert_eq!(parse_color(&s.color), Ok((0, 255, 0)));
    assert_eq!(s.brightness, 100);
}

#[test]
fn color_hex_round_trip() {
    assert_eq!(color_hex((0xAB, 0x01, 0xFF)), "AB01FF");
    for c in [(0u8, 0u8, 0u8), (255, 255, 255), (1, 2, 3), (0xDE, 0xAD, 0x0F)] {
        assert_eq!(parse_color(&color_hex(c)), Ok(c));
        assert_eq!(parse_color(&format!("#{}", color_hex(c))), Ok(c));
    }
}

#[test]
fn opt_value_takes_next_argument() {
    let a = args(&["FF0000", "--br", "50", "--gpu", "1"]);
    assert_eq!(opt_value(&a, "--br"), Some("50".to_string()));
    assert_eq!(opt_value(&a, "--gpu"), Some("1".to_string()));
    assert_eq!(opt_value(&a, "--x"), None);
    assert_eq!(opt_value(&args(&["off", "--gpu"]), "--gpu"), None);
    assert_eq!(opt_value(&args(&["--br", "--br", "7"]), "--br"), Some("--br".to_string()));
}

#[test]
fn brightness_defaults_and_caps() {
    assert_eq!(brightness_arg(&args(&["FF0000"])), 100);
    assert_eq!(brightness_arg(&args(&["FF0000", "--br", "40"])), 40);
    assert_eq!(brightness_arg(&args(&["FF0000", "--br", "+40"])), 40);
    assert_eq!(brightness_arg(&args(&["FF0000", "--br", "200"])), 100);
    assert_eq!(brightness_arg(&args(&["FF0000", "--br", "300"])), 100);
    assert_eq!(brightness_arg(&args(&["FF0000", "--br", "x"])), 100);
    assert_eq!(brightness_arg(&args(&["FF0000", "--br", " 5"])), 100);
}

#[test]
fn gpu_list_parsing() {
    assert_eq!(parse_gpu_list("0,1", 4), vec![0, 1]);
    assert_eq!(parse_gpu_list(" 2 , x, 9,,1 ", 4), vec![2, 1]);
    assert_eq!(parse_gpu_list("", 4), Vec::<usize>::new());
    assert_eq!(parse_gpu_list("+3", 4), vec![3]);
    assert_eq!(parse_gpu_list("99999999999999999999999", 4), Vec::<usize>::new());
}

#[test]
fn select_gpus_from_option_or_config() {
    let cfg = GpuSel::List(vec![1, 7]);
    assert_eq!(select_gpus(&args(&["off", "--gpu", "ALL"]), &cfg, 3), vec![0, 1, 2]);
    assert_eq!(select_gpus(&args(&["off", "--gpu", "2,0"]), &cfg, 3), vec![2, 0]);
    assert_eq!(select_gpus(&args(&["off", "--gpu", "5"]), &cfg, 3), vec![1]);
    assert_eq!(select_gpus(&args(&["off"]), &cfg, 3), vec![1]);
    assert_eq!(select_gpus(&args(&["off"]), &GpuSel::List(vec![9]), 3), vec![0]);
    assert_eq!(select_gpus(&args(&["off"]), &GpuSel::All("All".to_string()), 2), vec![0, 1]);
}

#[test]
fn commands() {
    assert!(matches!(command(&args(&[])), Command::Help));
    assert!(matches!(command(&args(&["-h"])), Command::Help));
    assert!(matches!(command(&args(&["--help", "off"])), Command::Help));
    assert!(matches!(command(&args(&["config"])), Command::Config));
    assert!(matches!(command(&args(&["off"])), Command::Off));
    assert!(matches!(command(&args(&["id"])), Command::Id));
    assert!(matches!(command(&args(&["dump"])), Command::Dump));
    assert!(matches!(command(&args(&["temp"])), Command::Temp));
    assert!(matches!(command(&args(&["rainbow"])), Command::Rainbow));
    assert!(matches!(command(&args(&["FF0000"])), Command::Color));
    assert!(matches!(command(&args(&["OFF"])), Command::Color));
}

#[test]
fn sleep_steps_of_fifty() {
    assert_eq!(sleep_step(120), (50, 70));
    assert_eq!(sleep_step(50), (50, 0));
    assert_eq!(sleep_step(7), (7, 0));
    let mut left = 1000u64;
    let mut total = 0u64;
    let mut steps = 0;
    while left > 0 {
        let (c, r) = sleep_step(left);
        assert!(c > 0 && c <= 50);
        total += c;
        left = r;
        steps += 1;
    }
    assert_eq!(total, 1000);
    assert_eq!(steps, 20);
}

#[test]
fn note_color_writes_only_changes() {
    let mut last = initial_colors(2);
    assert_eq!(last, vec![(1, 1, 1), (1, 1, 1)]);
    assert!(note_color(&mut last, 0, (0, 255, 0)));
    assert!(!note_color(&mut last, 0, (0, 255, 0)));
    assert!(note_color(&mut last, 1, (255, 0, 0)));
    assert!(note_color(&mut last, 0, (255, 255, 0)));
    assert_eq!(last, vec![(255, 255, 0), (255, 0, 0)]);
}

#[test]
fn hex_line_of_register() {
    assert_eq!(hex_line(&[0x00, 0xAB, 0x5]), "00 AB 05");
    assert_eq!(hex_line(&[]), "");
}

#[test]
fn temperature_passes_write_only_changed_colors() {
    // three GPUs over four passes; a write happens only when the color differs from the
    // one last sent
    let passes = [
        [(0u8, 255u8, 0u8), (0, 255, 0), (255, 0, 0)],
        [(0, 255, 0), (255, 255, 0), (255, 0, 0)],
        [(0, 255, 0), (255, 255, 0), (255, 140, 0)],
        [(255, 255, 0), (255, 255, 0), (255, 140, 0)],
    ];
    let expected = [
        [true, true, true],
        [false, true, false],
        [false, false, true],
        [true, false, false],
    ];
    let mut last = initial_colors(3);
    let mut sent = vec![(1u8, 1u8, 1u8); 3];
    for (p, colors) in passes.iter().enumerate() {
        for (i, &c) in colors.iter().enumerate() {
            let w = note_color(&mut last, i, c);
            assert_eq!(w, expected[p][i]);
            assert_eq!(w, c != sent[i]);
            if w {
                sent[i] = c;
            }
        }
    }
}
