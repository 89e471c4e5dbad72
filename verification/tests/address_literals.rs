use mcquery::address::{read_ip_literal, IpAddress};

fn v4(a: u8, b: u8, c: u8, d: u8) -> Option<IpAddress> {
    Some(IpAddress::V4(u32::from_be_bytes([a, b, c, d])))
}

fn v6(groups: [u16; 8]) -> Option<IpAddress> {
    let mut bits: u128 = 0;
    for g in groups {
        bits = (bits << 16) | g as u128;
    }
    Some(IpAddress::V6(bits))
}

#[test]
fn dotted_quads() {
    assert_eq!(read_ip_literal("127.0.0.1"), v4(127, 0, 0, 1));
    assert_eq!(read_ip_literal("0.0.0.0"), v4(0, 0, 0, 0));
    assert_eq!(read_ip_literal("255.255.255.255"), v4(255, 255, 255, 255));
    assert_eq!(read_ip_literal("192.168.1.20"), v4(192, 168, 1, 20));
    assert_eq!(read_ip_literal("1.2.3.4"), Some(IpAddress::V4(0x0102_0304)));
}

#[test]
fn what_is_no_dotted_quad() {
    for text in [
        "", ".", "1", "1.2", "1.2.3", "1.2.3.", ".1.2.3", "1.2.3.4.", "1.2.3.4.5", "1..3.4",
        "256.0.0.1", "1.2.3.256", "01.2.3.4", "1.2.3.04", "00.0.0.0", "1.2.3.4 ", " 1.2.3.4",
        "1.2.3.+4", "1.2.3.-4", "1.2.3.a", "0x1.2.3.4", "1.2.3.4:80", "1.2.3.1000", "１.2.3.4",
        "example.com", "localhost", "mc.hypixel.net", "1.2.3.4.example.com",
    ] {
        assert_eq!(read_ip_literal(text), None, "{:?}", text);
    }
}

#[test]
fn eight_groups() {
    assert_eq!(read_ip_literal("1:2:3:4:5:6:7:8"), v6([1, 2, 3, 4, 5, 6, 7, 8]));
    assert_eq!(
        read_ip_literal("2001:0db8:85a3:0000:0000:8a2e:0370:7334"),
        v6([0x2001, 0x0db8, 0x85a3, 0, 0, 0x8a2e, 0x0370, 0x7334])
    );
    assert_eq!(
        read_ip_literal("FFFF:ffff:FfFf:fFfF:abcd:ABCD:0:00"),
        v6([0xffff, 0xffff, 0xffff, 0xffff, 0xabcd, 0xabcd, 0, 0])
    );
    assert_eq!(read_ip_literal("0:0:0:0:0:0:0:0"), Some(IpAddress::V6(0)));
    assert_eq!(
        read_ip_literal("ffff:ffff:ffff:ffff:ffff:ffff:ffff:ffff"),
        Some(IpAddress::V6(u128::MAX))
    );
}

#[test]
fn double_colon_stands_for_zero_groups() {
    assert_eq!(read_ip_literal("::"), v6([0; 8]));
    assert_eq!(read_ip_literal("::1"), v6([0, 0, 0, 0, 0, 0, 0, 1]));
    assert_eq!(read_ip_literal("1::"), v6([1, 0, 0, 0, 0, 0, 0, 0]));
    assert_eq!(read_ip_literal("1::8"), v6([1, 0, 0, 0, 0, 0, 0, 8]));
    assert_eq!(read_ip_literal("2001:db8::8a2e:370:7334"), v6([0x2001, 0xdb8, 0, 0, 0, 0x8a2e, 0x370, 0x7334]));
    assert_eq!(read_ip_literal("fe80::1"), v6([0xfe80, 0, 0, 0, 0, 0, 0, 1]));
    assert_eq!(read_ip_literal("1:2:3:4:5:6:7::"), v6([1, 2, 3, 4, 5, 6, 7, 0]));
    assert_eq!(read_ip_literal("::2:3:4:5:6:7:8"), v6([0, 2, 3, 4, 5, 6, 7, 8]));
    assert_eq!(read_ip_literal("1:2:3::6:7:8"), v6([1, 2, 3, 0, 0, 6, 7, 8]));
    assert_eq!(read_ip_literal("1:2:3:4::6:7:8"), v6([1, 2, 3, 4, 0, 6, 7, 8]));
    assert_eq!(read_ip_literal("1::3:4:5:6:7:8"), v6([1, 0, 3, 4, 5, 6, 7, 8]));
}

#[test]
fn last_groups_as_dotted_quad() {
    assert_eq!(read_ip_literal("::1.2.3.4"), v6([0, 0, 0, 0, 0, 0, 0x0102, 0x0304]));
    assert_eq!(read_ip_literal("::ffff:192.168.1.20"), v6([0, 0, 0, 0, 0, 0xffff, 0xc0a8, 0x0114]));
    assert_eq!(read_ip_literal("1:2:3:4:5:6:7.8.9.10"), v6([1, 2, 3, 4, 5, 6, 0x0708, 0x090a]));
    assert_eq!(read_ip_literal("1::255.255.255.255"), v6([1, 0, 0, 0, 0, 0, 0xffff, 0xffff]));
    assert_eq!(read_ip_literal("1:2:3:4:5::1.2.3.4"), v6([1, 2, 3, 4, 5, 0, 0x0102, 0x0304]));
    assert_eq!(read_ip_literal("64:ff9b::0.0.0.0"), v6([0x64, 0xff9b, 0, 0, 0, 0, 0, 0]));
}

#[test]
fn what_is_no_ipv6_address() {
    for text in [
        ":", ":::", "::::", "1", "1:", ":1", "1:2", "1:2:3:4:5:6:7", "1:2:3:4:5:6:7:8:9",
        "1:2:3:4:5:6:7:", ":2:3:4:5:6:7:8", "1:2:3:4:5:6:7:8::", "::1:2:3:4:5:6:7:8",
        "1:2:3:4::5:6:7:8", "1::2::3", "1:::2", "::1:", ":1::", "12345::", "::12345", "g::",
        "::g", "1:2:3:4:5:6:7:8 ", " ::1", "::1 ", "fe80::1%eth0", "[::1]", "::1]", "::-1",
        "::+1", "1.2.3.4::", "1.2.3.4:5:6:7:8:9:a", "1:2:3:4:5:6:7:1.2.3.4", "1:2:3:4:5:6::1.2.3.4",
        "1:2:3:4:5:1.2.3.4", "::1.2.3", "::1.2.3.4.5", "::1.2.3.256", "::01.2.3.4", "::1.2.3.4:5",
        "1:2:3:4:5:6:1.2.3.4:8", "::ffff:1.2.3.4:", "0:0:0:0:0:0:0:0:", "::0x1", "：：1",
        "a:b:c:d:e:f:0:1:2:3:4:5:6:7:8:9",
    ] {
        assert_eq!(read_ip_literal(text), None, "{:?}", text);
    }
}

struct Cursor<'a> {
    rest: &'a [u8],
}

impl<'a> Cursor<'a> {
    fn atomically<T>(&mut self, inner: impl FnOnce(&mut Cursor<'a>) -> Option<T>) -> Option<T> {
        let saved = self.rest;
        let result = inner(self);
        if result.is_none() {
            self.rest = saved;
        }
        result
    }

    fn given(&mut self, wanted: u8) -> Option<()> {
        self.atomically(|c| {
            let (first, rest) = c.rest.split_first()?;
            c.rest = rest;
            if *first == wanted {
                Some(())
            } else {
                None
            }
        })
    }

    fn separated<T>(
        &mut self,
        sep: u8,
        index: usize,
        inner: impl FnOnce(&mut Cursor<'a>) -> Option<T>,
    ) -> Option<T> {
        self.atomically(move |c| {
            if index > 0 {
                c.given(sep)?;
            }
            inner(c)
        })
    }

    fn number(&mut self, radix: u32, max_digits: usize, max: u32, zero_prefix: bool) -> Option<u32> {
        self.atomically(move |c| {
            let leading_zero = c.rest.first() == Some(&b'0');
            let mut value: u32 = 0;
            let mut count = 0;
            while let Some(digit) = c.rest.first().and_then(|b| (*b as char).to_digit(radix)) {
                c.rest = &c.rest[1..];
                value = value * radix + digit;
                if value > max {
                    return None;
                }
                count += 1;
                if count > max_digits {
                    return None;
                }
            }
            if count == 0 || (!zero_prefix && leading_zero && count > 1) {
                None
            } else {
                Some(value)
            }
        })
    }

    fn v4(&mut self) -> Option<u32> {
        self.atomically(|c| {
            let mut bits = 0;
            for i in 0..4 {
                bits = bits << 8 | c.separated(b'.', i, |c| c.number(10, 3, 255, false))?;
            }
            Some(bits)
        })
    }

    fn groups(&mut self, slots: &mut [u16]) -> (usize, bool) {
        let limit = slots.len();
        for i in 0..limit {
            if i + 1 < limit {
                if let Some(bits) = self.separated(b':', i, |c| c.v4()) {
                    slots[i] = (bits >> 16) as u16;
                    slots[i + 1] = bits as u16;
                    return (i + 2, true);
                }
            }
            match self.separated(b':', i, |c| c.number(16, 4, 0xffff, true)) {
                Some(group) => slots[i] = group as u16,
                None => return (i, false),
            }
        }
        (limit, false)
    }

    fn v6(&mut self) -> Option<u128> {
        self.atomically(|c| {
            let mut head = [0u16; 8];
            let (head_size, head_v4) = c.groups(&mut head);
            if head_size < 8 {
                if head_v4 {
                    return None;
                }
                c.given(b':')?;
                c.given(b':')?;
                let mut tail = [0u16; 7];
                let limit = 8 - (head_size + 1);
                let (tail_size, _) = c.groups(&mut tail[..limit]);
                head[8 - tail_size..].copy_from_slice(&tail[..tail_size]);
            }
            let mut bits: u128 = 0;
            for group in head {
                bits = bits << 16 | group as u128;
            }
            Some(bits)
        })
    }
}

fn by_cursor(text: &str) -> Option<IpAddress> {
    let mut cursor = Cursor { rest: text.as_bytes() };
    let result = match cursor.v4() {
        Some(bits) => Some(IpAddress::V4(bits)),
        None => cursor.v6().map(IpAddress::V6),
    };
    if cursor.rest.is_empty() {
        result
    } else {
        None
    }
}

#[test]
fn agrees_with_reading_left_to_right() {
    let pieces = [
        "", "0", "1", "a", "F", "10", "255", "256", "01", "ffff", "0000", "10000", "g", "1.2.3.4",
        "1.2.3", "1.02.3.4", "1.2.3.4.5", "255.255.255.255", " ",
    ];
    let mut texts: Vec<String> = Vec::new();
    for a in pieces {
        texts.push(a.to_string());
        for b in pieces {
            texts.push(format!("{}:{}", a, b));
            texts.push(format!("{}.{}", a, b));
            for c in pieces {
                texts.push(format!("{}:{}:{}", a, b, c));
                texts.push(format!("{}.{}.{}.1", a, b, c));
                texts.push(format!("1:2:3:{}:{}:{}:7:8", a, b, c));
                texts.push(format!("1:{}:{}:{}", a, b, c));
                texts.push(format!("{}:{}:{}:5:6:7:8", a, b, c));
                texts.push(format!("1:2:3:4:5:{}:{}:{}", a, b, c));
                texts.push(format!("1:2:3:4:5:6:{}:{}:{}", a, b, c));
                texts.push(format!("{}:{}:{}:4:5:6:7:8:9", a, b, c));
            }
        }
    }
    let mut addresses = 0;
    for text in &texts {
        let expected = by_cursor(text);
        if expected.is_some() {
            addresses += 1;
        }
        assert_eq!(read_ip_literal(text), expected, "{:?}", text);
    }
    assert!(addresses > 1000, "{}", addresses);
}
