//! The library against models: each model reads one byte at a time with a
//! few flags, says nothing of where it stops on a fault, and takes floats
//! where the library takes decimals or keys.  A search of the model runs on
//! behind a value that the buffer cut short and fails at its next step.  On
//! random input both must agree.

use trading_rs::exchange::binance::Error;
use trading_rs::exchange::Kline;
use trading_rs::finder::{Haystack, ScanError, Value};
use trading_rs::indicators::{Maximum, Minimum, TdSeq};
use trading_rs::number::Decimal;

struct Rng(u64);
impl Rng {
    fn next(&mut self) -> u64 {
        self.0 = self.0.wrapping_mul(6364136223846793005).wrapping_add(1442695040888963407);
        self.0 >> 33
    }
    fn words(&mut self, words: &[&[u8]], max: usize) -> Vec<u8> {
        let n = (self.next() as usize) % (max + 1);
        let mut text = Vec::new();
        for _ in 0..n {
            text.extend_from_slice(words[(self.next() as usize) % words.len()]);
        }
        text
    }
    fn text(&mut self, alphabet: &[u8], max: usize) -> Vec<u8> {
        let len = (self.next() as usize) % (max + 1);
        (0..len).map(|_| alphabet[(self.next() as usize) % alphabet.len()]).collect()
    }
}

struct ScanModel<'a> {
    pos: usize,
    slice: &'a [u8],
}

impl<'a> ScanModel<'a> {
    fn next(&mut self) -> Option<u8> {
        let a = *self.slice.get(self.pos)?;
        self.pos += 1;
        Some(a)
    }
    fn peek(&self) -> Option<u8> {
        self.slice.get(self.pos).copied()
    }
    fn skip_object(&mut self) -> Result<(), ScanError> {
        let mut curly: usize = 1;
        while let Some(b) = self.peek() {
            if b == b'{' {
                curly += 1;
            } else if b == b'}' {
                curly -= 1;
                if curly == 0 {
                    self.next().unwrap();
                    return Ok(());
                }
            }
            self.next().unwrap();
        }
        Err(ScanError::EndOfInput)
    }
    fn skip_array(&mut self) -> Result<(), ScanError> {
        let mut square: usize = 1;
        while square > 0 {
            let b = self.next().ok_or(ScanError::EndOfInput)?;
            if b == b'[' {
                square += 1;
            } else if b == b']' {
                square -= 1;
            }
        }
        Ok(())
    }
    fn skip_other(&mut self) -> Result<(), ScanError> {
        while let Some(b) = self.next() {
            if b == b',' {
                return Ok(());
            }
        }
        Err(ScanError::EndOfInput)
    }
    fn find_key(&mut self, key: &str) -> Result<(), ScanError> {
        let mut k: Option<&[u8]> = None;
        let mut index: Option<usize> = None;
        loop {
            match k {
                None => match index {
                    None => {
                        while let Some(b) = self.peek() {
                            if b == b'"' {
                                self.next().unwrap();
                                break;
                            }
                            self.next().unwrap();
                        }
                        if let Some(b) = self.peek() {
                            if b.is_ascii_alphanumeric() {
                                index = Some(self.pos);
                            } else {
                                return Err(ScanError::Grammar);
                            }
                        } else {
                            return Err(ScanError::EndOfInput);
                        }
                    }
                    Some(i) => {
                        while let Some(b) = self.peek() {
                            if b == b'"' {
                                k = Some(&self.slice[i..self.pos]);
                                self.next().unwrap();
                                break;
                            }
                            if !b.is_ascii_alphanumeric() {
                                return Err(ScanError::Grammar);
                            }
                            self.next().unwrap();
                        }
                        if k.is_none() {
                            return Err(ScanError::EndOfInput);
                        }
                    }
                },
                Some(key_bytes) => {
                    if key_bytes != key.as_bytes() {
                        if let Some(b) = self.next() {
                            if b == b':' {
                                if let Some(b) = self.next() {
                                    match b {
                                        b'[' => self.skip_array()?,
                                        b'{' => drop(self.skip_object()),
                                        _ => drop(self.skip_other()),
                                    }
                                } else {
                                    return Err(ScanError::EndOfInput);
                                }
                            } else {
                                return Err(ScanError::Grammar);
                            }
                        } else {
                            return Err(ScanError::EndOfInput);
                        }
                        k = None;
                        index = None;
                    } else {
                        break;
                    }
                }
            }
        }
        Ok(())
    }
    fn find_pair(&mut self, key: &str, value: &str) -> Result<(), ScanError> {
        let mut k: Option<&[u8]> = None;
        let mut v: Option<&[u8]> = None;
        let mut index: Option<usize> = None;
        loop {
            match (k, v) {
                (None, None) => match index {
                    None => {
                        while let Some(b) = self.peek() {
                            if b == b'"' {
                                break;
                            }
                            self.next().unwrap();
                        }
                        if let Some(_) = self.next() {
                            if let Some(b) = self.peek() {
                                if b.is_ascii_alphanumeric() {
                                    index = Some(self.pos);
                                } else {
                                    return Err(ScanError::Grammar);
                                }
                            } else {
                                return Err(ScanError::EndOfInput);
                            }
                        } else {
                            return Err(ScanError::EndOfInput);
                        }
                    }
                    Some(i) => {
                        while let Some(b) = self.peek() {
                            if b == b'"' {
                                k = Some(&self.slice[i..self.pos]);
                                self.next().unwrap();
                                break;
                            }
                            if !b.is_ascii_alphanumeric() {
                                return Err(ScanError::Grammar);
                            }
                            self.next().unwrap();
                        }
                        if k.is_none() {
                            return Err(ScanError::EndOfInput);
                        } else {
                            index = None;
                        }
                    }
                },
                (Some(key_bytes), None) => {
                    if key_bytes != key.as_bytes() {
                        drop(self.skip_object());
                        k = None;
                    } else {
                        match index {
                            None => {
                                if let Some(b) = self.next() {
                                    if b == b':' {
                                        if let Some(b) = self.peek() {
                                            if b.is_ascii_alphanumeric() {
                                                index = Some(self.pos);
                                            } else if b == b'"' {
                                                index = Some(self.pos + 1);
                                                self.next().unwrap();
                                            } else {
                                                return Err(ScanError::Grammar);
                                            }
                                        } else {
                                            return Err(ScanError::EndOfInput);
                                        }
                                    }
                                } else {
                                    return Err(ScanError::EndOfInput);
                                }
                            }
                            Some(i) => {
                                while let Some(b) = self.peek() {
                                    if b == b'"' || b == b',' {
                                        v = Some(&self.slice[i..self.pos]);
                                        self.next().unwrap();
                                        break;
                                    }
                                    if !b.is_ascii_alphanumeric() && b != b'_' {
                                        return Err(ScanError::Grammar);
                                    }
                                    self.next().unwrap();
                                }
                                if v.is_none() {
                                    return Err(ScanError::EndOfInput);
                                }
                            }
                        }
                    }
                }
                (Some(_), Some(val_bytes)) => {
                    if val_bytes == value.as_bytes() {
                        break;
                    } else {
                        k = None;
                        v = None;
                        index = None;
                    }
                }
                _ => (),
            }
        }
        Ok(())
    }
}

const JSONISH: &[u8] = b"{}[]\":,ab1_ .-";

#[test]
fn scanner_agrees_with_its_model_on_keys() {
    let mut rng = Rng(1);
    let mut hits = 0;
    for round in 0..300000 {
        let text = if round % 2 == 0 {
            rng.text(JSONISH, 22)
        } else {
            rng.words(
                &[b"\"a\"", b"\"b\"", b"\"ab\"", b":", b",", b"{", b"}", b"[", b"]", b"1", b"\"x y\"", b"\"", b"a"],
                12,
            )
        };
        let key = ["a", "b", "ab", "1"][(round / 2) % 4];
        let start = if text.is_empty() { 0 } else { (rng.next() as usize) % (text.len() + 1) };
        let mut hay = Haystack::new(&text);
        for _ in 0..start {
            hay.next();
        }
        let ours = hay.find_key(key);
        let mut model = ScanModel { pos: start, slice: &text };
        let wanted = model.find_key(key);
        assert_eq!(ours, wanted, "{:?} from {} for {}", String::from_utf8_lossy(&text), start, key);
        if ours.is_ok() {
            hits += 1;
            assert_eq!(hay.position(), model.pos, "{:?}", String::from_utf8_lossy(&text));
        } else {
            assert_eq!(hay.position(), start);
        }
    }
    assert!(hits > 1000, "{}", hits);
}

#[test]
fn scanner_agrees_with_its_model_on_pairs() {
    let mut rng = Rng(2);
    let mut hits = 0;
    for round in 0..300000 {
        let text = if round % 3 == 0 {
            let mut text = Vec::new();
            for _ in 0..(rng.next() % 4) {
                text.push(b'{');
                for field in 0..(1 + rng.next() % 3) {
                    if field > 0 {
                        text.push(b',');
                    }
                    text.extend_from_slice([&b"\"a\""[..], b"\"b\"", b"\"ab\""][(rng.next() % 3) as usize]);
                    text.push(b':');
                    text.extend_from_slice(
                        [&b"a"[..], b"1", b"a_1", b"b1", b"\"a_1\"", b"\"a\"", b"\"1\"", b"{\"a\":\"1\"}", b"\"b1\""]
                            [(rng.next() % 9) as usize],
                    );
                }
                text.push(b'}');
                text.push(b',');
            }
            if rng.next() % 4 == 0 && !text.is_empty() {
                let at = (rng.next() as usize) % text.len();
                text[at] = b"{}\":, a"[(rng.next() % 7) as usize];
            }
            text
        } else if round % 3 == 1 {
            rng.text(b"{}\":,ab1_ ", 24)
        } else {
            rng.words(
                &[b"\"a\"", b"\"b\"", b"\"ab\"", b":", b",", b"{", b"}", b"1", b"a_1", b"\"a_1\"", b"\"", b"b1", b" "],
                12,
            )
        };
        let key = ["a", "b", "ab"][(round / 2) % 3];
        let value = ["a", "1", "a_1", "b1"][(round / 6) % 4];
        let start = if text.is_empty() { 0 } else { (rng.next() as usize) % (text.len() + 1) };
        let mut hay = Haystack::new(&text);
        for _ in 0..start {
            hay.next();
        }
        let ours = hay.find_pair(key, value);
        let mut model = ScanModel { pos: start, slice: &text };
        let wanted = model.find_pair(key, value);
        assert_eq!(ours, wanted, "{:?} from {} for {} {}", String::from_utf8_lossy(&text), start, key, value);
        if ours.is_ok() {
            hits += 1;
            assert_eq!(hay.position(), model.pos, "{:?}", String::from_utf8_lossy(&text));
        } else {
            assert_eq!(hay.position(), start);
        }
    }
    assert!(hits > 300, "{}", hits);
}

#[test]
fn scanner_agrees_with_its_model_on_skips() {
    let mut rng = Rng(3);
    for _ in 0..200000 {
        let text = rng.text(b"{}[],a", 16);
        let mut hay = Haystack::new(&text);
        let mut model = ScanModel { pos: 0, slice: &text };
        let wanted = model.skip_object();
        assert_eq!(hay.skip_value(Value::Object), wanted);
        if wanted.is_ok() {
            assert_eq!(hay.position(), model.pos);
        }
        let mut hay = Haystack::new(&text);
        let mut model = ScanModel { pos: 0, slice: &text };
        let wanted = model.skip_other();
        assert_eq!(hay.skip_value(Value::Other), wanted);
        if wanted.is_ok() {
            assert_eq!(hay.position(), model.pos);
        }
        let mut hay = Haystack::new(&text);
        let mut model = ScanModel { pos: 0, slice: &text };
        let wanted = model.skip_array();
        assert_eq!(hay.skip_value(Value::Array), wanted);
        if wanted.is_ok() {
            assert_eq!(hay.position(), model.pos);
        }
    }
}

fn model_int(s: &[u8]) -> Option<i64> {
    std::str::from_utf8(s).ok()?.parse::<i64>().ok()
}

fn model_i32(s: &[u8]) -> Option<i32> {
    std::str::from_utf8(s).ok()?.parse::<i32>().ok()
}

fn plain(s: &[u8]) -> bool {
    s.iter().all(|b| b.is_ascii_digit() || *b == b'.')
}

fn model_float(s: &[u8]) -> Option<f64> {
    if !plain(s) {
        return None;
    }
    std::str::from_utf8(s).ok()?.parse::<f64>().ok()
}

fn float(d: Decimal) -> f64 {
    format!("{}e-{}", d.digits, d.scale).parse().unwrap()
}

fn model_row(slice: &[u8]) -> Option<(i64, f64, f64, f64, f64)> {
    let mut i: Option<usize> = None;
    let mut index: usize = 0;
    let mut kline = (0i64, 0f64, 0f64, 0f64, 0f64);
    for (count, &element) in slice.iter().enumerate() {
        if element.is_ascii_digit() && i.is_none() {
            i = Some(count);
        }
        if i.is_some() && (element == b'"' || element == b',') {
            let s = &slice[i.unwrap()..count];
            match index {
                0 => kline.0 = model_int(s)?,
                1 => kline.1 = model_float(s)?,
                2 => kline.2 = model_float(s)?,
                3 => kline.3 = model_float(s)?,
                4 => {
                    kline.4 = model_float(s)?;
                    break;
                }
                _ => (),
            }
            index += 1;
            i = None;
        }
    }
    Some(kline)
}

fn model_table(slice: &[u8]) -> Option<Vec<(i64, f64, f64, f64, f64)>> {
    let mut i: Option<usize> = None;
    let mut klines = Vec::new();
    for (j, &item) in slice.iter().enumerate().skip(1) {
        if i.is_none() && item == b'[' {
            i = Some(j);
        }
        if i.is_some() && item == b']' {
            klines.push(model_row(&slice[i.unwrap()..j])?);
            i = None;
        }
    }
    Some(klines)
}

fn as_tuple(k: &Kline) -> (i64, f64, f64, f64, f64) {
    (k.open_time, float(k.open), float(k.high), float(k.low), float(k.close))
}

#[test]
fn rows_agree_with_their_model() {
    let mut rng = Rng(4);
    let mut hits = 0;
    for _ in 0..300000 {
        let text = rng.text(b"[]\",123.0 ", 40);
        let ours = Kline::parse_array(&text);
        let wanted = model_row(&text);
        match (&ours, &wanted) {
            (Ok(k), Some(w)) => {
                hits += 1;
                assert_eq!(as_tuple(k), *w, "{:?}", String::from_utf8_lossy(&text));
            }
            (Err(_), None) => {}
            _ => panic!("{:?}: {:?} {:?}", String::from_utf8_lossy(&text), ours, wanted),
        }
        let ours = Kline::parse_2d_array(&text, 0);
        let wanted = model_table(&text);
        match (&ours, &wanted) {
            (Ok(k), Some(w)) => {
                let got: Vec<_> = k.iter().map(as_tuple).collect();
                assert_eq!(got, *w, "{:?}", String::from_utf8_lossy(&text));
            }
            (Err(_), None) => {}
            _ => panic!("{:?}: {:?} {:?}", String::from_utf8_lossy(&text), ours, wanted),
        }
    }
    assert!(hits > 1000);
}

fn model_error(slice: &[u8]) -> Option<(i32, String)> {
    let mut code = 0;
    let mut message = String::new();
    let mut i: Option<usize> = None;
    let mut key: Option<&[u8]> = None;
    for (j, &element) in slice.iter().enumerate() {
        match key {
            None => match i {
                None => {
                    if element == b'"' {
                        i = Some(j + 1);
                    }
                }
                Some(index) => {
                    if element == b'"' {
                        key = Some(&slice[index..j]);
                        i = None;
                    }
                }
            },
            Some(bytes) => match i {
                None => {
                    if element == b':' {
                        i = Some(j + 1);
                    }
                }
                Some(index) => {
                    if element == b',' || element == b'}' {
                        let value = &slice[index..j];
                        if bytes == b"code" {
                            code = model_i32(value)?;
                        } else if bytes == b"msg" {
                            let len = value.len();
                            if len < 2 {
                                return None;
                            }
                            message = String::from_utf8(value[1..len - 1].to_vec()).ok()?;
                        } else {
                            return None;
                        }
                        key = None;
                        i = None;
                    }
                }
            },
        }
    }
    Some((code, message))
}

#[test]
fn error_documents_agree_with_their_model() {
    let mut rng = Rng(5);
    let words: [&[u8]; 12] = [
        b"\"code\"", b"\"msg\"", b":", b",", b"}", b"{", b"-12", b"7", b"\"text\"", b"\"", b"x", b"+3",
    ];
    let mut hits = 0;
    for _ in 0..300000 {
        let n = (rng.next() % 9) as usize;
        let mut text = Vec::new();
        for _ in 0..n {
            text.extend_from_slice(words[(rng.next() as usize) % words.len()]);
        }
        let ours = Error::from_json(&text);
        let wanted = model_error(&text);
        match (&ours, &wanted) {
            (Ok(e), Some((code, message))) => {
                hits += 1;
                assert_eq!(e.code, *code);
                assert_eq!(&e.message, message);
            }
            (Err(_), None) => {}
            _ => panic!("{:?}: {:?} {:?}", String::from_utf8_lossy(&text), ours, wanted),
        }
    }
    assert!(hits > 1000);
}

fn key(value: f64) -> i64 {
    let bits = value.to_bits() as i64;
    bits ^ ((((bits >> 63) as u64) >> 1) as i64)
}

struct CounterModel {
    highs: [f64; 5],
    lows: [f64; 5],
    closes: [f64; 5],
    index: usize,
    buy_setup_count: u32,
    sell_setup_count: u32,
    perfect: bool,
    support: f64,
    resistance: f64,
}

impl CounterModel {
    fn next(&mut self, high: f64, low: f64, close: f64) {
        if self.closes[self.index].is_nan() && self.index != 4 {
            self.closes[self.index] = close;
            self.highs[self.index] = high;
            self.lows[self.index] = low;
            self.index += 1;
        } else {
            self.closes[self.index] = close;
            self.highs[self.index] = high;
            self.lows[self.index] = low;
            let prev_index = if let Some(prev_index) = self.index.checked_sub(4) {
                prev_index
            } else {
                self.index + 1
            };
            if self.buy_setup_count == 9 {
                self.buy_setup_count = 0;
            }
            if self.sell_setup_count == 9 {
                self.sell_setup_count = 0;
            }
            if self.closes[prev_index] >= self.closes[self.index] {
                if self.sell_setup_count != 0 {
                    self.sell_setup_count = 0;
                }
                if self.buy_setup_count == 0 {
                    self.resistance = self.highs[self.index];
                }
                self.buy_setup_count += 1;
            } else {
                if self.buy_setup_count != 0 {
                    self.buy_setup_count = 0;
                }
                if self.sell_setup_count == 0 {
                    self.support = self.lows[self.index];
                }
                self.sell_setup_count += 1;
            }
            if self.buy_setup_count == 9 {
                let sixth = self.lows[(prev_index + 1) % 5];
                let seventh = self.lows[(prev_index + 2) % 5];
                let eighth = self.lows[(prev_index + 3) % 5];
                let ninth = self.lows[self.index];
                self.perfect =
                    (eighth < sixth && eighth < seventh) || (ninth < sixth && ninth < seventh);
            }
            if self.sell_setup_count == 9 {
                let sixth = self.highs[(prev_index + 1) % 5];
                let seventh = self.highs[(prev_index + 2) % 5];
                let eighth = self.highs[(prev_index + 3) % 5];
                let ninth = self.highs[self.index];
                self.perfect =
                    (eighth > sixth && eighth > seventh) || (ninth > sixth && ninth > seventh);
            }
            if self.index == 4 {
                self.index = 0;
            } else {
                self.index += 1;
            }
        }
    }
}

#[test]
fn counter_agrees_with_its_model() {
    let mut rng = Rng(6);
    let mut judged = 0;
    for _ in 0..2000 {
        let mut ours = TdSeq::new();
        let mut model = CounterModel {
            highs: [f64::NAN; 5],
            lows: [f64::NAN; 5],
            closes: [f64::NAN; 5],
            index: 0,
            buy_setup_count: 0,
            sell_setup_count: 0,
            perfect: false,
            support: 0f64,
            resistance: 0f64,
        };
        let bias = rng.next() % 5;
        let mut close = 100.0;
        for step in 0..120 {
            let up = rng.next() % 5 >= bias;
            let size = (rng.next() % 4) as f64;
            close += if up { size } else { -size };
            let high = close + (rng.next() % 3) as f64;
            let low = close - (rng.next() % 3) as f64;
            ours.next(key(high), key(low), key(close));
            model.next(high, low, close);
            let count = if model.buy_setup_count > 0 {
                -(model.buy_setup_count as i32)
            } else {
                model.sell_setup_count as i32
            };
            assert_eq!(ours.count(), count, "step {}", step);
            assert_eq!(ours.buy_perfect(), model.perfect && model.buy_setup_count == 9);
            assert_eq!(ours.sell_perfect(), model.perfect && model.sell_setup_count == 9);
            if step >= 4 {
                if model.sell_setup_count > 0 {
                    assert_eq!(ours.support, key(model.support));
                }
                if model.buy_setup_count > 0 {
                    assert_eq!(ours.resistance, key(model.resistance));
                }
            }
            if ours.buy_perfect() || ours.sell_perfect() {
                judged += 1;
            }
        }
    }
    assert!(judged > 20, "{}", judged);
}

struct ExtremeModel {
    period: usize,
    max_index: usize,
    cur_index: usize,
    values: Vec<f64>,
}

impl ExtremeModel {
    fn find_max_index(&self) -> usize {
        let mut max = f64::MIN;
        let mut index: usize = 0;
        for (i, &val) in self.values.iter().enumerate() {
            if max < val {
                max = val;
                index = i;
            }
        }
        index
    }
    fn next(&mut self, price: f64) {
        self.values[self.cur_index] = price;
        if price > self.values[self.max_index] {
            self.max_index = self.cur_index;
        } else if self.max_index == self.cur_index {
            self.max_index = self.find_max_index();
        }
        self.cur_index = if self.cur_index + 1 < self.period { self.cur_index + 1 } else { 0 };
    }
    fn get(&self) -> Option<f64> {
        self.values.get(self.max_index).copied()
    }
}

#[test]
fn extremes_agree_with_their_model() {
    let mut rng = Rng(7);
    for _ in 0..3000 {
        let period = 1 + (rng.next() % 6) as usize;
        let mut ours = Maximum::new(period);
        let mut lowest = Minimum::new(period);
        let mut model =
            ExtremeModel { period, max_index: 0, cur_index: 0, values: vec![f64::MIN; period] };
        let mut mirrored =
            ExtremeModel { period, max_index: 0, cur_index: 0, values: vec![f64::MIN; period] };
        for _ in 0..60 {
            let price = (rng.next() % 21) as f64 - 10.0;
            ours.next(key(price));
            lowest.next(key(price));
            model.next(price);
            mirrored.next(-price);
            assert_eq!(ours.get(), model.get().map(key));
            assert_eq!(lowest.get(), mirrored.get().map(|v| key(-v)));
        }
    }
}

fn model_balance(tail: &[u8]) -> Option<f64> {
    let mut hay = ScanModel { pos: 0, slice: tail };
    let mut balance = String::new();
    while let Some(b) = hay.peek() {
        if b == b'"' {
            hay.next().unwrap();
            break;
        }
        hay.next().unwrap();
    }
    while let Some(b) = hay.peek() {
        if b.is_ascii_digit() || b == b'.' {
            balance.push(char::from(b));
        }
        if b == b'"' {
            break;
        }
        hay.next().unwrap();
    }
    if !plain(balance.as_bytes()) {
        return None;
    }
    balance.parse().ok()
}

fn model_precision(tail: &[u8]) -> Option<usize> {
    let mut hay = ScanModel { pos: 0, slice: tail };
    let mut precision: Option<usize> = None;
    while let Some(b) = hay.peek() {
        if let Some(ref mut p) = precision {
            *p += 1;
            if b == b'1' {
                break;
            }
        } else {
            if b == b'1' {
                precision = Some(0);
                break;
            }
            if b == b'.' {
                precision = Some(0);
            }
            if b == b',' {
                break;
            }
        }
        hay.next().unwrap();
    }
    precision
}

#[test]
fn balance_and_precision_agree_with_their_model() {
    let mut rng = Rng(8);
    let mut hits = 0;
    for _ in 0..200000 {
        let tail = rng.text(b"\"0123.,}x :", 14);
        let mut text = br#"{"balances":[{"asset":"X","free""#.to_vec();
        text.extend_from_slice(&tail);
        let ours = trading_rs::exchange::binance::balance_of(&text, "X");
        let wanted = model_balance(&tail);
        match (&ours, &wanted) {
            (Ok(d), Some(w)) => {
                hits += 1;
                assert_eq!(float(*d), *w, "{:?}", String::from_utf8_lossy(&tail));
            }
            (Err(_), None) => {}
            _ => panic!("{:?}: {:?} {:?}", String::from_utf8_lossy(&tail), ours, wanted),
        }
        let mut text = br#"{"symbols":[{"symbol":"A","filters":[{"filterType":"LOT_SIZE","stepSize""#.to_vec();
        text.extend_from_slice(&tail);
        let ours = trading_rs::exchange::binance::precision_of(&text, "A");
        let wanted = model_precision(&tail);
        assert_eq!(ours.ok(), wanted, "{:?}", String::from_utf8_lossy(&tail));
    }
    assert!(hits > 1000);
}

struct CacheModel<'a> {
    iter: std::iter::Peekable<std::iter::Enumerate<std::slice::Iter<'a, u8>>>,
    slice: &'a [u8],
}

type Listed = (Vec<(String, f64)>, Vec<(String, String, i32)>);

impl<'a> CacheModel<'a> {
    fn load_cache(&mut self) -> Option<Listed> {
        let mut assets = Vec::new();
        let mut symbols = Vec::new();
        loop {
            let table = match self.next_table() {
                Some(Some(table)) => table.to_vec(),
                Some(None) => break,
                None => return None,
            };
            if table == b"assets" {
                assets.push(self.parse_asset()?);
            } else if table == b"symbols" {
                symbols.push(self.parse_symbol()?);
            } else {
                return None;
            }
        }
        Some((assets, symbols))
    }
    fn skip_whitespaces(&mut self) {
        while let Some(_) = self.iter.next_if(|(_, b)| b.is_ascii_whitespace()) {}
    }
    fn skip_alphanumerics(&mut self) {
        while let Some(_) =
            self.iter.next_if(|&(_, &b)| b.is_ascii_alphanumeric() || b == b'-' || b == b'_')
        {}
    }
    fn skip_until(&mut self, delim: u8) -> Option<usize> {
        while let Some(_) = self.iter.next_if(|&(_, &b)| b != delim) {}
        self.iter.peek().map(|&(i, _)| i)
    }
    fn next_table(&mut self) -> Option<Option<&[u8]>> {
        self.skip_whitespaces();
        if self.iter.next_if(|&(_, &b)| b == b'[').is_none() {
            return Some(None);
        }
        self.iter.next_if(|&(_, &b)| b == b'[');
        let start = self.iter.next_if(|(_, b)| b.is_ascii_alphanumeric()).map(|(i, _)| i)?;
        self.skip_alphanumerics();
        let end = self.iter.peek().map(|&(i, _)| i)?;
        Some(self.slice.get(start..end))
    }
    fn next_key(&mut self) -> Option<&[u8]> {
        self.skip_until(b'\n');
        self.skip_whitespaces();
        let start = self.iter.next_if(|(_, b)| b.is_ascii_alphanumeric()).map(|(i, _)| i)?;
        self.skip_alphanumerics();
        let end = self.iter.peek().map(|&(i, _)| i)?;
        self.slice.get(start..end)
    }
    fn next_value(&mut self) -> Option<&[u8]> {
        self.skip_whitespaces();
        if let Some((_, &b)) = self.iter.next() {
            if b != b'=' {
                return None;
            }
        } else {
            return None;
        }
        self.skip_whitespaces();
        if let Some(&(i, &b)) = self.iter.peek() {
            if b == b'"' {
                self.iter.next().unwrap();
                let start = self.iter.next().map(|(i, _)| i)?;
                let end = self.skip_until(b'"')?;
                self.slice.get(start..end)
            } else {
                let start = i;
                let end = self.skip_until(b'\n')?;
                self.slice.get(start..end)
            }
        } else {
            None
        }
    }
    fn parse_asset(&mut self) -> Option<(String, f64)> {
        let key = self.next_key()?;
        if key != b"name" {
            return None;
        }
        let name = String::from_utf8(self.next_value()?.to_vec()).ok()?;
        let key = self.next_key()?;
        if key != b"balance" {
            return None;
        }
        let balance = model_float(self.next_value()?)?;
        Some((name, balance))
    }
    fn parse_symbol(&mut self) -> Option<(String, String, i32)> {
        let key = self.next_key()?;
        if key != b"base" {
            return None;
        }
        let base = String::from_utf8(self.next_value()?.to_vec()).ok()?;
        let key = self.next_key()?;
        if key != b"quote" {
            return None;
        }
        let quote = String::from_utf8(self.next_value()?.to_vec()).ok()?;
        let key = self.next_key()?;
        if key != b"step-size" {
            return None;
        }
        let step = model_i32(self.next_value()?)?;
        Some((base, quote, step))
    }
}

#[test]
fn cache_agrees_with_its_model() {
    let mut rng = Rng(9);
    let words: [&[u8]; 20] = [
        b"[[assets]]", b"[[symbols]]", b"[assets]", b"\n", b"\n", b"name", b"balance", b"base",
        b"quote", b"step-size", b" = ", b"=", b"\"BNB\"", b"\"USDT\"", b"12.5", b"3", b"-2", b" ",
        b"\"", b"x",
    ];
    let limits = trading_rs::trading::Thresholds { tighten: 1, strong: 2, ceiling: 3 };
    let mut hits = 0;
    for round in 0..200000 {
        let text = if round % 2 == 0 {
            rng.words(&words, 24)
        } else {
            let mut text = Vec::new();
            for _ in 0..(rng.next() % 4) {
                if rng.next() % 2 == 0 {
                    text.extend_from_slice(b"[[assets]]\nname = \"A\"\nbalance = 1.5\n\n");
                } else {
                    text.extend_from_slice(b"[[symbols]]\nbase = \"A\"\nquote = \"B\"\nstep-size = 3\n");
                }
            }
            if rng.next() % 3 == 0 && !text.is_empty() {
                let at = (rng.next() as usize) % text.len();
                text[at] = b"[]\n=\" x1"[(rng.next() % 8) as usize];
            }
            text
        };
        let ours = trading_rs::parser::TomlParser::new(&text).load_cache(limits);
        let mut model = CacheModel { iter: text.iter().enumerate().peekable(), slice: &text };
        let wanted = model.load_cache();
        match (&ours, &wanted) {
            (Ok((assets, symbols)), Some((model_assets, model_symbols))) => {
                if !assets.is_empty() || !symbols.is_empty() {
                    hits += 1;
                }
                let got: Vec<(String, f64)> =
                    assets.iter().map(|a| (a.name.clone(), float(a.balance))).collect();
                assert_eq!(got, *model_assets, "{:?}", String::from_utf8_lossy(&text));
                let got: Vec<(String, String, i32)> = symbols
                    .iter()
                    .map(|s| (s.base().to_string(), s.quote().to_string(), s.step_size()))
                    .collect();
                assert_eq!(got, *model_symbols, "{:?}", String::from_utf8_lossy(&text));
            }
            (Err(_), None) => {}
            _ => panic!(
                "{:?}: {:?} {:?}",
                String::from_utf8_lossy(&text),
                ours.as_ref().map(|(a, s)| (a.len(), s.len())),
                wanted
            ),
        }
    }
    assert!(hits > 1000, "{}", hits);
}
