use truncation_aware::proc_stat::{
    kb_to_bytes, open_fds, parse_cpu_ticks, parse_rss_kb, parse_threads, sampling_interval,
    ticks_to_ms, Publication, Readings, Sampler,
};

const STAT: &str = "1234 (a) b (c)) S 1 1234 1234 0 -1 4194304 100 0 0 0 \
                    250 75 0 0 20 0 9 0 12345 1000000 500 18446744073709551615\n";

#[test]
fn cpu_time_is_read_behind_the_last_parenthesis() {
    assert_eq!(parse_cpu_ticks(STAT), Some((250, 75)));
    assert_eq!(ticks_to_ms(250, 75), 3250);
}

#[test]
fn threads_are_field_twenty() {
    assert_eq!(parse_threads(STAT), Some(9));
}

#[test]
fn malformed_stat_gives_nothing() {
    assert_eq!(parse_cpu_ticks(""), None);
    assert_eq!(parse_cpu_ticks("1 2 3"), None);
    assert_eq!(parse_cpu_ticks("1 (x) S 1 2 3"), None);
    let unreadable = STAT.replace(" 250 ", " 25x ");
    assert_eq!(parse_cpu_ticks(&unreadable), None);
    assert_eq!(parse_threads(&unreadable), Some(9));
    let negative = STAT.replace(" 75 ", " -75 ");
    assert_eq!(parse_cpu_ticks(&negative), None);
}

#[test]
fn numbers_may_have_a_plus_and_must_fit() {
    let with = |n: &str| parse_rss_kb(&format!("VmRSS: {} kB\n", n));
    assert_eq!(with("+7"), "+7".parse().ok());
    assert_eq!(with("+"), None);
    assert_eq!(with("007"), Some(7));
    assert_eq!(with("18446744073709551615"), Some(u64::MAX));
    assert_eq!(with("18446744073709551616"), None);
    assert_eq!(with("99999999999999999999"), None);
}

#[test]
fn resident_set_size_is_read_from_its_line() {
    let status = "Name:\tx\r\nVmSize:\t 99 kB\nVmRSS:\t   5120 kB\nThreads:\t3\n";
    assert_eq!(parse_rss_kb(status), Some(5120));
    assert_eq!(kb_to_bytes(5120), 5_242_880);
    assert_eq!(parse_rss_kb("VmRSS:12\r\n"), Some(12));
    assert_eq!(parse_rss_kb("VmRSS:\u{2003}12"), Some(12));
    // The first such line counts, even if it holds no number.
    assert_eq!(parse_rss_kb("VmRSS:\nVmRSS: 4 kB\n"), None);
    assert_eq!(parse_rss_kb(" VmRSS: 4 kB\n"), None);
    assert_eq!(parse_rss_kb("VmSize: 4 kB"), None);
    assert_eq!(parse_rss_kb(""), None);
}

#[test]
fn white_space_is_that_of_unicode() {
    for code in 0..0x11000u32 {
        if let Some(c) = char::from_u32(code) {
            // A white character ends the field, so that the number is read.
            let read = parse_rss_kb(&format!("VmRSS:5{}", c));
            let expected = format!("VmRSS:5{}", c)
                .lines()
                .next()
                .and_then(|l| l.strip_prefix("VmRSS:"))
                .and_then(|r| r.split_whitespace().next())
                .and_then(|n| n.parse::<u64>().ok());
            assert_eq!(read, expected, "{:x}", code);
        }
    }
}

#[test]
fn the_listing_of_descriptors_is_not_counted() {
    assert_eq!(open_fds(0), 0);
    assert_eq!(open_fds(1), 0);
    assert_eq!(open_fds(12), 11);
}

#[test]
fn sampling_is_at_least_a_second_apart() {
    assert_eq!(sampling_interval(0), 1);
    assert_eq!(sampling_interval(1), 1);
    assert_eq!(sampling_interval(15), 15);
}

fn cpu_only(cpu_ms: Option<u64>) -> Readings {
    Readings {
        cpu_ms,
        resident_bytes: None,
        open_fds: None,
        threads: None,
    }
}

#[test]
fn the_counter_adds_up_to_the_highest_reading() {
    let mut sampler = Sampler::new();
    let mut added = |reading| sampler.sample(cpu_only(reading)).cpu_ms_added;
    let mut total = 0;
    for reading in [None, Some(100), Some(250), Some(240), None, Some(250), Some(400)] {
        total += added(reading).unwrap_or(0);
    }
    assert_eq!(total, 400);
    assert_eq!(added(Some(399)), None);
    assert_eq!(added(Some(400)), Some(0));
    assert_eq!(added(Some(401)), Some(1));
    assert_eq!(sampler.reported_ms, 401);
}

#[test]
fn gauges_show_what_was_read() {
    let mut sampler = Sampler::new();
    let first = Readings {
        cpu_ms: Some(50),
        resident_bytes: None,
        open_fds: Some(7),
        threads: Some(3),
    };
    assert_eq!(
        sampler.sample(first),
        Publication {
            cpu_ms_added: Some(50),
            resident_bytes: None,
            open_fds: Some(7),
            threads: Some(3),
        }
    );
    // A failed read publishes nothing; the other figures and the next round are as ever.
    let second = Readings {
        cpu_ms: None,
        resident_bytes: Some(4096),
        open_fds: None,
        threads: Some(2),
    };
    assert_eq!(
        sampler.sample(second),
        Publication {
            cpu_ms_added: None,
            resident_bytes: Some(4096),
            open_fds: None,
            threads: Some(2),
        }
    );
    let third = cpu_only(Some(80));
    assert_eq!(sampler.sample(third).cpu_ms_added, Some(30));
}
