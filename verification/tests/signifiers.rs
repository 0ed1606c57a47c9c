//! The signifier grammar checked against the regular expressions it
//! follows, on assorted task lines.
use clin::date::Date;
use clin::signifiers::extract_signifiers;
use clin::tasks::Priority;
use chrono::Datelike;
use regex::Regex;

struct Expected {
    description: String,
    dates: Vec<Option<(i32, u32, u32)>>,
    priority: Priority,
    tags: Vec<String>,
}

fn ymd(d: Option<Date>) -> Option<(i32, u32, u32)> {
    d.map(|d| (d.year(), d.month(), d.day()))
}

struct Patterns {
    dates: Vec<Regex>,
    priority: Regex,
    tag: Regex,
    ws: Regex,
}

fn patterns() -> Patterns {
    Patterns {
        dates: ["📅", "⏳", "🛫", "✅", "➕", "❌"]
            .iter()
            .map(|marker| Regex::new(&format!(r"\s*{marker}\s*(\d{{4}}-\d{{2}}-\d{{2}})")).unwrap())
            .collect(),
        priority: Regex::new(r"\s*(🔺|⏫|🔼|🔽|⏬️?)").unwrap(),
        tag: Regex::new(r#"#[^\s!@#$%^&*(),.?":{}|<>]+"#).unwrap(),
        ws: Regex::new(r"\s+").unwrap(),
    }
}

fn by_regex(p: &Patterns, raw: &str) -> Expected {
    let mut text = raw.to_string();
    let mut dates = Vec::new();
    for re in &p.dates {
        let found = re.captures(&text).map(|caps| {
            let whole = caps.get(0).unwrap().range();
            let date = caps.get(1).unwrap().as_str().parse::<chrono::NaiveDate>().ok();
            (whole, date)
        });
        match found {
            Some((whole, date)) => {
                text.replace_range(whole, "");
                dates.push(date.map(|d| (d.year(), d.month(), d.day())));
            }
            None => dates.push(None),
        }
    }
    let priority = match p.priority.captures(&text).map(|c| (c.get(0).unwrap().range(), c.get(1).unwrap().as_str().to_string())) {
        Some((whole, mark)) => {
            text.replace_range(whole, "");
            match mark.as_str() {
                "🔺" => Priority::Highest,
                "⏫" => Priority::High,
                "🔼" => Priority::Medium,
                "🔽" => Priority::Low,
                _ => Priority::Lowest,
            }
        }
        None => Priority::Normal,
    };
    let tags = p.tag.find_iter(&text).map(|m| m.as_str().to_string()).collect();
    let description = p.ws.replace_all(text.trim(), " ").into_owned();
    Expected { description, dates, priority, tags }
}

fn check(p: &Patterns, raw: &str) {
    let chars: Vec<char> = raw.chars().collect();
    let (description, sig) = extract_signifiers(&chars);
    let expected = by_regex(p, raw);
    assert_eq!(description, expected.description, "description of {raw:?}");
    let got = vec![
        ymd(sig.due),
        ymd(sig.scheduled),
        ymd(sig.start),
        ymd(sig.done),
        ymd(sig.created),
        ymd(sig.cancelled),
    ];
    assert_eq!(got, expected.dates, "dates of {raw:?}");
    assert_eq!(sig.priority, expected.priority, "priority of {raw:?}");
    assert_eq!(sig.tags, expected.tags, "tags of {raw:?}");
}

#[test]
fn signifiers_agree_with_the_regular_expressions() {
    let lines = [
        "take out the trash 📅 2021-04-09",
        "x ⏳ 2021-04-09 🛫 2021-04-10 ➕ 2021-04-08 ❌ 2021-04-11",
        "done ✅2021-04-09 #home",
        "📅 2021-02-30 bad date stays removed",
        "two dues 📅 2021-01-01 and 📅 2021-02-02",
        "no space📅2022-03-04⏫",
        "spaced\u{3000}📅\u{a0}2023-05-06 tail",
        "arabic digits 📅 ٢٠٢١-٠٤-٠٩",
        "lowest ⏬️ and low 🔽",
        "tags #a/b #c.d #e,f #g!h #ü #",
        "  lots   of\t\twhitespace   ",
        "",
        "📅 2021-04-09",
        "#only-tag ⏫ 📅 2024-12-31",
        "bad 📅 2021-4-9 date",
        "a🔺b⏫c",
    ];
    let p = patterns();
    for raw in lines {
        check(&p, raw);
    }
}

#[test]
fn signifiers_agree_with_the_regular_expressions_on_random_lines() {
    let pieces = [
        " ", "  ", "\t", "\u{a0}", "\u{3000}", "a", "word", "#", "#tag", "#x/y", ".", ",", "!",
        "📅", "⏳", "🛫", "✅", "➕", "❌", "🔺", "⏫", "🔼", "🔽", "⏬", "⏬️", "\u{fe0f}",
        "2021-04-09", "2024-02-29", "2023-02-29", "1999-12-31", "٢٠٢١-٠٤-٠٩", "2021-4-9", "-", "0",
    ];
    let mut state: u64 = 0x9e37_79b9_7f4a_7c15;
    let mut next = move || {
        state ^= state << 13;
        state ^= state >> 7;
        state ^= state << 17;
        state
    };
    let p = patterns();
    for _ in 0..200 {
        let n = (next() % 12) as usize;
        let mut raw = String::new();
        for _ in 0..n {
            raw.push_str(pieces[(next() % pieces.len() as u64) as usize]);
        }
        check(&p, &raw);
    }
}
