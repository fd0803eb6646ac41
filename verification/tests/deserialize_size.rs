// Size-probe tests: measuring untrusted buffers without materializing
// values, with and without a ceiling, over complete and truncated input.

use tampon::{Tampon, TamponError};

// String constants
pub const STRINGS: &'static [&'static str] = &[
    "I saw your text.",
    "Écrits avec des charactères spéciaux tel que é ç à î ì ï.",
    "", // Empty string
    "तुजो मजकूर पळयलो", // Konkani
    "Би таны бичвэрийг харсан", // Mongolian
    "Nobis tamquam probatus ad est, nam ex singulis volutpat. Pro et dicta dictas iriure, ius tibique patrioque ea. Quo meis aeque commune ea, ius ea case vocibus iracundia. Esse consul vis at, dolore dissentias vel ei. Qui tation civibus moderatius et, no mei suas harum conclusionemque. Eum et nonumy fastidii detracto, usu magna referrentur ea.",
    "我看到了你的文字", // Chinese simplified
    "رأيت النص الخاص بك", // Arabic
    "私はあなたのテキストを見ました", // Japanese
    "Я бачив ваш текст", // Ukrainian
];

// The budget that remains for a nested probe once `used` bytes are counted.
fn remaining_budget(max_size: usize, used: usize) -> usize {
    if max_size == 0 {
        0
    } else if used < max_size {
        max_size - used
    } else {
        0
    }
}

// One probe step of a composite: add the field's width, then hold the
// running total to the ceiling.
fn probe_step(
    r: Result<usize, TamponError>,
    n: &mut usize,
    max_size: usize,
) -> Option<TamponError> {
    match r {
        Ok(c) => {
            *n += c;
            if max_size > 0 && *n > max_size {
                Some(TamponError::DeserializeSizeGreaterThanMax)
            } else {
                None
            }
        }
        Err(e) => Some(e),
    }
}

// A running probe over a declared list of items, one `step` per item.
struct ProbeRun<'a> {
    buffer: &'a Vec<u8>,
    n: usize,
    max: usize,
    err: Option<TamponError>,
}

impl<'a> ProbeRun<'a> {
    fn new(buffer: &'a Vec<u8>, max: usize) -> ProbeRun<'a> {
        ProbeRun { buffer, n: 0, max, err: None }
    }

    fn step<T: Tampon>(&mut self) {
        if self.err.is_none() {
            if let Some(e) = probe_step(
                T::deserialize_size(self.buffer, self.n, remaining_budget(self.max, self.n)),
                &mut self.n,
                self.max,
            ) {
                self.err = Some(e);
            }
        }
    }

    fn finish(self) -> Result<usize, TamponError> {
        match self.err {
            Some(e) => Err(e),
            None => Ok(self.n),
        }
    }
}

// Struct used to test the record contract in these tests
pub struct TamponS1 {
    _f1: u8,
    _f2: u32,
    _f3: f64,
    f4: TamponS2,
    v1: Vec<u8>,
    v2: Vec<f64>,
    v3: Vec<TamponS2>,
}

impl TamponS1 {
    pub fn new(f1: u8, f2: u32, f3: f64, vsize: usize) -> TamponS1 {
        let f4 = TamponS2::new(0, 1234567892);
        let v1: Vec<u8> = vec![f1; vsize];
        let v2: Vec<f64> = vec![f3; vsize];
        let mut v3: Vec<TamponS2> = Vec::new();
        for i in 0..f1 {
            v3.push(TamponS2::new(i, (i as i128 * i as i128) as i128));
        }
        TamponS1 { _f1: f1, _f2: f2, _f3: f3, f4, v1, v2, v3 }
    }

    fn v2_bits(&self) -> Vec<u64> {
        self.v2.iter().map(|x| x.to_bits()).collect()
    }
}

impl Tampon for TamponS1 {
    type V = ();

    fn bytes_size(&self) -> usize {
        tampon::bytes_size(&self._f1)
            + tampon::bytes_size(&self._f2)
            + tampon::bytes_size(&self._f3.to_bits())
            + self.f4.bytes_size()
            + tampon::bytes_size(&self.v1)
            + tampon::bytes_size(&self.v2_bits())
            + tampon::bytes_size(&self.v3)
    }

    fn serialize(&self, buffer: &mut Vec<u8>, at: usize) -> usize {
        let mut n = 0;
        n += tampon::serialize(&self._f1, buffer, at + n);
        n += tampon::serialize(&self._f2, buffer, at + n);
        n += tampon::serialize(&self._f3.to_bits(), buffer, at + n);
        n += self.f4.serialize(buffer, at + n);
        n += tampon::serialize(&self.v1, buffer, at + n);
        n += tampon::serialize(&self.v2_bits(), buffer, at + n);
        n += tampon::serialize(&self.v3, buffer, at + n);
        n
    }

    fn deserialize(buffer: &Vec<u8>, at: usize) -> (Self, usize) {
        let mut n = 0;
        let (f1, c) = tampon::deserialize::<u8>(buffer, at + n);
        n += c;
        let (f2, c) = tampon::deserialize::<u32>(buffer, at + n);
        n += c;
        let (f3b, c) = tampon::deserialize::<u64>(buffer, at + n);
        n += c;
        let (f4, c) = TamponS2::deserialize(buffer, at + n);
        n += c;
        let (v1, c) = tampon::deserialize::<Vec<u8>>(buffer, at + n);
        n += c;
        let (v2b, c) = tampon::deserialize::<Vec<u64>>(buffer, at + n);
        n += c;
        let (v3, c) = tampon::deserialize::<Vec<TamponS2>>(buffer, at + n);
        n += c;
        let v2: Vec<f64> = v2b.iter().map(|x| f64::from_bits(*x)).collect();
        (TamponS1 { _f1: f1, _f2: f2, _f3: f64::from_bits(f3b), f4, v1, v2, v3 }, n)
    }

    fn deserialize_size(
        buffer: &Vec<u8>,
        at: usize,
        max_size: usize,
    ) -> Result<usize, TamponError> {
        let mut n: usize = 0;
        if let Some(e) = probe_step(
            tampon::deserialize_size::<u8>(buffer, at + n, remaining_budget(max_size, n)),
            &mut n,
            max_size,
        ) {
            return Err(e);
        }
        if let Some(e) = probe_step(
            tampon::deserialize_size::<u32>(buffer, at + n, remaining_budget(max_size, n)),
            &mut n,
            max_size,
        ) {
            return Err(e);
        }
        if let Some(e) = probe_step(
            tampon::deserialize_size::<u64>(buffer, at + n, remaining_budget(max_size, n)),
            &mut n,
            max_size,
        ) {
            return Err(e);
        }
        if let Some(e) = probe_step(
            TamponS2::deserialize_size(buffer, at + n, remaining_budget(max_size, n)),
            &mut n,
            max_size,
        ) {
            return Err(e);
        }
        if let Some(e) = probe_step(
            tampon::deserialize_size::<Vec<u8>>(buffer, at + n, remaining_budget(max_size, n)),
            &mut n,
            max_size,
        ) {
            return Err(e);
        }
        if let Some(e) = probe_step(
            tampon::deserialize_size::<Vec<u64>>(buffer, at + n, remaining_budget(max_size, n)),
            &mut n,
            max_size,
        ) {
            return Err(e);
        }
        if let Some(e) = probe_step(
            tampon::deserialize_size::<Vec<TamponS2>>(
                buffer,
                at + n,
                remaining_budget(max_size, n),
            ),
            &mut n,
            max_size,
        ) {
            return Err(e);
        }
        Ok(n)
    }
}

// Struct used as inner struct of test struct
pub struct TamponS2 {
    _f1: u8,
    _f2: i128,
}

impl TamponS2 {
    pub fn new(f1: u8, f2: i128) -> TamponS2 {
        TamponS2 { _f1: f1, _f2: f2 }
    }
}

impl Tampon for TamponS2 {
    type V = ();

    fn bytes_size(&self) -> usize {
        tampon::bytes_size(&self._f1) + tampon::bytes_size(&self._f2)
    }

    fn serialize(&self, buffer: &mut Vec<u8>, at: usize) -> usize {
        let mut n = 0;
        n += tampon::serialize(&self._f1, buffer, at + n);
        n += tampon::serialize(&self._f2, buffer, at + n);
        n
    }

    fn deserialize(buffer: &Vec<u8>, at: usize) -> (Self, usize) {
        let mut n = 0;
        let (f1, c) = tampon::deserialize::<u8>(buffer, at + n);
        n += c;
        let (f2, c) = tampon::deserialize::<i128>(buffer, at + n);
        n += c;
        (TamponS2 { _f1: f1, _f2: f2 }, n)
    }

    fn deserialize_size(
        buffer: &Vec<u8>,
        at: usize,
        max_size: usize,
    ) -> Result<usize, TamponError> {
        let mut n: usize = 0;
        if let Some(e) = probe_step(
            tampon::deserialize_size::<u8>(buffer, at + n, remaining_budget(max_size, n)),
            &mut n,
            max_size,
        ) {
            return Err(e);
        }
        if let Some(e) = probe_step(
            tampon::deserialize_size::<i128>(buffer, at + n, remaining_budget(max_size, n)),
            &mut n,
            max_size,
        ) {
            return Err(e);
        }
        Ok(n)
    }
}

// Create one boolean variable and add its size
pub fn boolean_var(size: &mut usize) -> bool {
    let b = *size % 2 == 0;
    *size += 1;
    b
}

// Create one boolean slice and add its size
pub fn boolean_slice(size: &mut usize, index: usize) -> Vec<bool> {
    let mut v: Vec<bool> = Vec::new();
    for i in 0..(index + 1) * 100 {
        v.push(i % 2 == 0);
    }
    *size += 4 + v.len();
    v
}

// Create one string variable and add its size
pub fn string_var(size: &mut usize, index: usize) -> String {
    let s = String::from(STRINGS[index]);
    *size += 4 + s.len();
    s
}

// Create one string slice and add its size
pub fn string_slice(size: &mut usize) -> Vec<String> {
    let mut v: Vec<String> = Vec::new();
    for elem in STRINGS {
        v.push(String::from(*elem));
        *size += 4 + elem.len();
    }
    *size += 4;
    v
}

// Create one record variable and add its size
pub fn tampon_var_s1(size: &mut usize) -> TamponS1 {
    let t = TamponS1::new(u8::MAX, *size as u32, *size as f64, *size % 255);
    *size += t.bytes_size();
    t
}

pub fn tampon_var_s2(size: &mut usize) -> TamponS2 {
    let t = TamponS2::new(u8::MAX, *size as i128);
    *size += t.bytes_size();
    t
}

// Create one record slice and add its size
pub fn tampon_slice_s1(size: &mut usize) -> Vec<TamponS1> {
    let mut v: Vec<TamponS1> = Vec::new();
    for _ in 0..((*size + 1) * 2) % 255 {
        let t = TamponS1::new(u8::MAX, *size as u32, *size as f64, *size % 255);
        *size += t.bytes_size();
        v.push(t);
    }
    *size += 4;
    v
}

pub fn tampon_slice_s2(size: &mut usize) -> Vec<TamponS2> {
    let mut v: Vec<TamponS2> = Vec::new();
    for _ in 0..((*size + 1) * 2) % 255 {
        let t = TamponS2::new(u8::MAX, *size as i128);
        *size += t.bytes_size();
        v.push(t);
    }
    *size += 4;
    v
}

// Serialize ten boolean variables made from a fresh running size.
fn bool_vars_buffer() -> (usize, Vec<u8>) {
    let mut bytes_size = 0;
    let mut bools: Vec<bool> = Vec::new();
    for _ in 0..10 {
        bools.push(boolean_var(&mut bytes_size));
    }
    let mut buffer: Vec<u8> = vec![0; bytes_size];
    let mut cur = 0;
    for b in &bools {
        cur += tampon::serialize(b, &mut buffer, cur);
    }
    (bytes_size, buffer)
}

// Serialize ten boolean slices made from a fresh running size.
fn bool_slices_buffer() -> (usize, Vec<u8>) {
    let mut bytes_size = 0;
    let mut slices: Vec<Vec<bool>> = Vec::new();
    for index in 0..10 {
        slices.push(boolean_slice(&mut bytes_size, index));
    }
    let mut buffer: Vec<u8> = vec![0; bytes_size];
    let mut cur = 0;
    for bs in &slices {
        cur += tampon::serialize(bs, &mut buffer, cur);
    }
    (bytes_size, buffer)
}

// Probe ten boolean items.
fn probe_bool_vars(buffer: &Vec<u8>, max: usize) -> Result<usize, TamponError> {
    let mut run = ProbeRun::new(buffer, max);
    for _ in 0..10 {
        run.step::<bool>();
    }
    run.finish()
}

// Probe ten boolean slices.
fn probe_bool_slices(buffer: &Vec<u8>, max: usize) -> Result<usize, TamponError> {
    let mut run = ProbeRun::new(buffer, max);
    for _ in 0..10 {
        run.step::<Vec<bool>>();
    }
    run.finish()
}

// Serialize one of each numeric type (floats as their bit patterns).
fn numeric_vars_buffer() -> (usize, Vec<u8>) {
    let mut bytes_size = 0;
    bytes_size += 1 + 2 + 4 + 8 + 16 + 4 + 8 + 1 + 2 + 4 + 8 + 16;
    let mut buffer: Vec<u8> = vec![0; bytes_size];
    let mut cur = 0;
    cur += tampon::serialize(&u8::MAX, &mut buffer, cur);
    cur += tampon::serialize(&u16::MAX, &mut buffer, cur);
    cur += tampon::serialize(&u32::MAX, &mut buffer, cur);
    cur += tampon::serialize(&u64::MAX, &mut buffer, cur);
    cur += tampon::serialize(&u128::MAX, &mut buffer, cur);
    cur += tampon::serialize(&f32::MAX.to_bits(), &mut buffer, cur);
    cur += tampon::serialize(&f64::MAX.to_bits(), &mut buffer, cur);
    cur += tampon::serialize(&i8::MAX, &mut buffer, cur);
    cur += tampon::serialize(&i16::MAX, &mut buffer, cur);
    cur += tampon::serialize(&i32::MAX, &mut buffer, cur);
    cur += tampon::serialize(&i64::MAX, &mut buffer, cur);
    cur += tampon::serialize(&i128::MAX, &mut buffer, cur);
    assert_eq!(cur, bytes_size);
    (bytes_size, buffer)
}

// Probe one of each numeric type.
fn probe_numeric_vars(buffer: &Vec<u8>, max: usize) -> Result<usize, TamponError> {
    let mut run = ProbeRun::new(buffer, max);
    run.step::<u8>();
    run.step::<u16>();
    run.step::<u32>();
    run.step::<u64>();
    run.step::<u128>();
    run.step::<u32>();
    run.step::<u64>();
    run.step::<i8>();
    run.step::<i16>();
    run.step::<i32>();
    run.step::<i64>();
    run.step::<i128>();
    run.finish()
}

// Serialize one slice of each numeric type (floats as bit patterns).
fn numeric_slices_buffer() -> (usize, Vec<u8>) {
    let mut bytes_size = 0;
    let ns0: Vec<u8> = vec![u8::MAX; 100];
    bytes_size += 4 + 1 * 100;
    let ns1: Vec<u16> = vec![u16::MAX; 200];
    bytes_size += 4 + 2 * 200;
    let ns2: Vec<u32> = vec![u32::MAX; 300];
    bytes_size += 4 + 4 * 300;
    let ns3: Vec<u64> = vec![u64::MAX; 400];
    bytes_size += 4 + 8 * 400;
    let ns4: Vec<u128> = vec![u128::MAX; 500];
    bytes_size += 4 + 16 * 500;
    let ns5: Vec<u32> = vec![f32::MAX.to_bits(); 600];
    bytes_size += 4 + 4 * 600;
    let ns6: Vec<u64> = vec![f64::MAX.to_bits(); 700];
    bytes_size += 4 + 8 * 700;
    let ns7: Vec<i8> = vec![i8::MAX; 800];
    bytes_size += 4 + 1 * 800;
    let ns8: Vec<i16> = vec![i16::MAX; 900];
    bytes_size += 4 + 2 * 900;
    let ns9: Vec<i32> = vec![i32::MAX; 1000];
    bytes_size += 4 + 4 * 1000;
    let ns10: Vec<i64> = vec![i64::MAX; 1100];
    bytes_size += 4 + 8 * 1100;
    let ns11: Vec<i128> = vec![i128::MAX; 1200];
    bytes_size += 4 + 16 * 1200;
    let mut buffer: Vec<u8> = vec![0; bytes_size];
    let mut cur = 0;
    cur += tampon::serialize(&ns0, &mut buffer, cur);
    cur += tampon::serialize(&ns1, &mut buffer, cur);
    cur += tampon::serialize(&ns2, &mut buffer, cur);
    cur += tampon::serialize(&ns3, &mut buffer, cur);
    cur += tampon::serialize(&ns4, &mut buffer, cur);
    cur += tampon::serialize(&ns5, &mut buffer, cur);
    cur += tampon::serialize(&ns6, &mut buffer, cur);
    cur += tampon::serialize(&ns7, &mut buffer, cur);
    cur += tampon::serialize(&ns8, &mut buffer, cur);
    cur += tampon::serialize(&ns9, &mut buffer, cur);
    cur += tampon::serialize(&ns10, &mut buffer, cur);
    cur += tampon::serialize(&ns11, &mut buffer, cur);
    assert_eq!(cur, bytes_size);
    (bytes_size, buffer)
}

// Probe one slice of each numeric type.
fn probe_numeric_slices(buffer: &Vec<u8>, max: usize) -> Result<usize, TamponError> {
    let mut run = ProbeRun::new(buffer, max);
    run.step::<Vec<u8>>();
    run.step::<Vec<u16>>();
    run.step::<Vec<u32>>();
    run.step::<Vec<u64>>();
    run.step::<Vec<u128>>();
    run.step::<Vec<u32>>();
    run.step::<Vec<u64>>();
    run.step::<Vec<i8>>();
    run.step::<Vec<i16>>();
    run.step::<Vec<i32>>();
    run.step::<Vec<i64>>();
    run.step::<Vec<i128>>();
    run.finish()
}

// Serialize ten string variables.
fn string_vars_buffer() -> (usize, Vec<u8>) {
    let mut bytes_size = 0;
    let mut strings: Vec<String> = Vec::new();
    for index in 0..10 {
        strings.push(string_var(&mut bytes_size, index));
    }
    let mut buffer: Vec<u8> = vec![0; bytes_size];
    let mut cur = 0;
    for s in &strings {
        cur += tampon::serialize(s, &mut buffer, cur);
    }
    (bytes_size, buffer)
}

// Serialize ten string slices.
fn string_slices_buffer() -> (usize, Vec<u8>) {
    let mut bytes_size = 0;
    let mut slices: Vec<Vec<String>> = Vec::new();
    for _ in 0..10 {
        slices.push(string_slice(&mut bytes_size));
    }
    let mut buffer: Vec<u8> = vec![0; bytes_size];
    let mut cur = 0;
    for ss in &slices {
        cur += tampon::serialize(ss, &mut buffer, cur);
    }
    (bytes_size, buffer)
}

// Probe ten string items.
fn probe_string_vars(buffer: &Vec<u8>, max: usize) -> Result<usize, TamponError> {
    let mut run = ProbeRun::new(buffer, max);
    for _ in 0..10 {
        run.step::<String>();
    }
    run.finish()
}

// Probe ten string slices.
fn probe_string_slices(buffer: &Vec<u8>, max: usize) -> Result<usize, TamponError> {
    let mut run = ProbeRun::new(buffer, max);
    for _ in 0..10 {
        run.step::<Vec<String>>();
    }
    run.finish()
}

// Serialize the ten record variables used across these tests.
fn tampon_vars_buffer() -> (usize, Vec<u8>) {
    let mut bytes_size = 0;
    let t0 = tampon_var_s1(&mut bytes_size);
    let t1 = tampon_var_s2(&mut bytes_size);
    let t2 = tampon_var_s1(&mut bytes_size);
    let t3 = tampon_var_s1(&mut bytes_size);
    let t4 = tampon_var_s1(&mut bytes_size);
    let t5 = tampon_var_s2(&mut bytes_size);
    let t6 = tampon_var_s1(&mut bytes_size);
    let t7 = tampon_var_s2(&mut bytes_size);
    let t8 = tampon_var_s1(&mut bytes_size);
    let t9 = tampon_var_s2(&mut bytes_size);
    let mut buffer: Vec<u8> = vec![0; bytes_size];
    let mut cur = 0;
    cur += t0.serialize(&mut buffer, cur);
    cur += t2.serialize(&mut buffer, cur);
    cur += t1.serialize(&mut buffer, cur);
    cur += t5.serialize(&mut buffer, cur);
    cur += t3.serialize(&mut buffer, cur);
    cur += t4.serialize(&mut buffer, cur);
    cur += t6.serialize(&mut buffer, cur);
    cur += t8.serialize(&mut buffer, cur);
    cur += t7.serialize(&mut buffer, cur);
    cur += t9.serialize(&mut buffer, cur);
    assert_eq!(cur, bytes_size);
    (bytes_size, buffer)
}

// Probe the ten record variables in the order they were serialized.
fn probe_tampon_vars(buffer: &Vec<u8>, max: usize) -> Result<usize, TamponError> {
    let mut run = ProbeRun::new(buffer, max);
    run.step::<TamponS1>();
    run.step::<TamponS1>();
    run.step::<TamponS2>();
    run.step::<TamponS2>();
    run.step::<TamponS1>();
    run.step::<TamponS1>();
    run.step::<TamponS1>();
    run.step::<TamponS1>();
    run.step::<TamponS2>();
    run.step::<TamponS2>();
    run.finish()
}

// Serialize the ten record slices used across these tests.
fn tampon_slices_buffer() -> (usize, Vec<u8>) {
    let mut bytes_size = 0;
    let ts0 = tampon_slice_s1(&mut bytes_size);
    let ts1 = tampon_slice_s2(&mut bytes_size);
    let ts2 = tampon_slice_s1(&mut bytes_size);
    let ts3 = tampon_slice_s1(&mut bytes_size);
    let ts4 = tampon_slice_s1(&mut bytes_size);
    let ts5 = tampon_slice_s2(&mut bytes_size);
    let ts6 = tampon_slice_s1(&mut bytes_size);
    let ts7 = tampon_slice_s2(&mut bytes_size);
    let ts8 = tampon_slice_s1(&mut bytes_size);
    let ts9 = tampon_slice_s2(&mut bytes_size);
    let mut buffer: Vec<u8> = vec![0; bytes_size];
    let mut cur = 0;
    cur += tampon::serialize(&ts0, &mut buffer, cur);
    cur += tampon::serialize(&ts2, &mut buffer, cur);
    cur += tampon::serialize(&ts1, &mut buffer, cur);
    cur += tampon::serialize(&ts5, &mut buffer, cur);
    cur += tampon::serialize(&ts3, &mut buffer, cur);
    cur += tampon::serialize(&ts4, &mut buffer, cur);
    cur += tampon::serialize(&ts6, &mut buffer, cur);
    cur += tampon::serialize(&ts8, &mut buffer, cur);
    cur += tampon::serialize(&ts7, &mut buffer, cur);
    cur += tampon::serialize(&ts9, &mut buffer, cur);
    assert_eq!(cur, bytes_size);
    (bytes_size, buffer)
}

// Probe the ten record slices in the order they were serialized.
fn probe_tampon_slices(buffer: &Vec<u8>, max: usize) -> Result<usize, TamponError> {
    let mut run = ProbeRun::new(buffer, max);
    run.step::<Vec<TamponS1>>();
    run.step::<Vec<TamponS1>>();
    run.step::<Vec<TamponS2>>();
    run.step::<Vec<TamponS2>>();
    run.step::<Vec<TamponS1>>();
    run.step::<Vec<TamponS1>>();
    run.step::<Vec<TamponS1>>();
    run.step::<Vec<TamponS1>>();
    run.step::<Vec<TamponS2>>();
    run.step::<Vec<TamponS2>>();
    run.finish()
}

#[test]
// deserialize_size returns Ok(size) for bool
fn deserialize_size_returns_ok_bool() {
    let (bytes_size, buffer) = bool_vars_buffer();
    match probe_bool_vars(&buffer, 0) {
        Ok(size) => assert_eq!(bytes_size, size, "deserialize_size! wrong size given!"),
        Err(_) => panic!("Test deserialize_size_returns_ok_bool should not return Err!"),
    }

    let (bytes_size, buffer) = bool_slices_buffer();
    match probe_bool_slices(&buffer, 0) {
        Ok(size) => assert_eq!(bytes_size, size, "deserialize_size! wrong size given!"),
        Err(_) => panic!("Test deserialize_size_returns_ok_slices_bool should not return Err!"),
    }
}

#[test]
// deserialize_size returns Ok(size) for numeric
fn deserialize_size_returns_ok_numeric() {
    let (bytes_size, buffer) = numeric_vars_buffer();
    match probe_numeric_vars(&buffer, 0) {
        Ok(size) => assert_eq!(bytes_size, size, "deserialize_size! wrong size given!"),
        Err(_) => panic!("Test deserialize_size_returns_ok_numeric should not return Err!"),
    }

    let (bytes_size, buffer) = numeric_slices_buffer();
    match probe_numeric_slices(&buffer, 0) {
        Ok(size) => assert_eq!(bytes_size, size, "deserialize_size! wrong size given!"),
        Err(_) => panic!("Test deserialize_size_returns_ok_slices_numeric should not return Err!"),
    }
}

#[test]
// deserialize_size returns Ok(size) for string
fn deserialize_size_returns_ok_string() {
    let (bytes_size, buffer) = string_vars_buffer();
    match probe_string_vars(&buffer, 0) {
        Ok(size) => assert_eq!(bytes_size, size, "deserialize_size! wrong size given!"),
        Err(_) => panic!("Test deserialize_size_returns_ok_string should not return Err!"),
    }

    let (bytes_size, buffer) = string_slices_buffer();
    match probe_string_slices(&buffer, 0) {
        Ok(size) => assert_eq!(bytes_size, size, "deserialize_size! wrong size given!"),
        Err(_) => panic!("Test deserialize_size_returns_ok_slices_string should not return Err!"),
    }
}

#[test]
// deserialize_size returns Ok(size) for record implementors
fn deserialize_size_returns_ok_tampon() {
    let (bytes_size, buffer) = tampon_vars_buffer();
    match probe_tampon_vars(&buffer, 0) {
        Ok(size) => assert_eq!(bytes_size, size, "deserialize_size! wrong size given!"),
        Err(_) => panic!("Test deserialize_size_returns_ok_tampon should not return Err!"),
    }

    let (bytes_size, buffer) = tampon_slices_buffer();
    match probe_tampon_slices(&buffer, 0) {
        Ok(size) => assert_eq!(bytes_size, size, "deserialize_size! wrong size given!"),
        Err(_) => panic!("Test deserialize_size_returns_ok_slices_tampon should not return Err!"),
    }
}

#[test]
// deserialize_size returns Ok(size) for all types mixed
fn deserialize_size_returns_ok_mixed() {
    let (bytes_size, buffer) = mixed_buffer();
    match probe_mixed(&buffer, 0) {
        Ok(size) => assert_eq!(bytes_size, size, "deserialize_size! wrong size given!"),
        Err(_) => panic!("Test deserialize_size_returns_ok_mixed should not return Err!"),
    }
}

// Serialize one item of every kind, in a mixed order.
fn mixed_buffer() -> (usize, Vec<u8>) {
    let mut bytes_size = 0;
    let b0 = boolean_var(&mut bytes_size);
    let bs0 = boolean_slice(&mut bytes_size, 0);
    let n0: i128 = i128::MAX;
    bytes_size += 16;
    let ns0: Vec<u16> = vec![u16::MAX; 200];
    bytes_size += 4 + 2 * 200;
    let s0 = string_var(&mut bytes_size, 0);
    let ss0 = string_slice(&mut bytes_size);
    let t0 = tampon_var_s1(&mut bytes_size);
    let ts0 = tampon_slice_s2(&mut bytes_size);
    let mut buffer: Vec<u8> = vec![0; bytes_size];
    let mut cur = 0;
    cur += tampon::serialize(&b0, &mut buffer, cur);
    cur += tampon::serialize(&ts0, &mut buffer, cur);
    cur += tampon::serialize(&s0, &mut buffer, cur);
    cur += tampon::serialize(&ns0, &mut buffer, cur);
    cur += t0.serialize(&mut buffer, cur);
    cur += tampon::serialize(&bs0, &mut buffer, cur);
    cur += tampon::serialize(&ss0, &mut buffer, cur);
    cur += tampon::serialize(&n0, &mut buffer, cur);
    assert_eq!(cur, bytes_size);
    (bytes_size, buffer)
}

// Probe the mixed items in the order they were serialized.
fn probe_mixed(buffer: &Vec<u8>, max: usize) -> Result<usize, TamponError> {
    let mut run = ProbeRun::new(buffer, max);
    run.step::<bool>();
    run.step::<Vec<TamponS2>>();
    run.step::<String>();
    run.step::<Vec<u16>>();
    run.step::<TamponS1>();
    run.step::<Vec<bool>>();
    run.step::<Vec<String>>();
    run.step::<i128>();
    run.finish()
}

#[test]
// deserialize_size with the optional length-prefix widths for slices
fn deserialize_size_optional_len_type() {
    let mut var_size = 0;
    let to_bs0 = boolean_slice(&mut var_size, 0);
    let to_bs1 = boolean_slice(&mut var_size, 1);
    let to_bs2 = boolean_slice(&mut var_size, 2);

    let mut buffer: Vec<u8> = vec![0; var_size * 2];
    let mut to_size = 0;
    to_size += tampon::serialize_seq(&to_bs0, &mut buffer, to_size, tampon::LenType::U8);
    to_size += tampon::serialize_seq(&to_bs1, &mut buffer, to_size, tampon::LenType::U16);
    to_size += tampon::serialize_seq(&to_bs2, &mut buffer, to_size, tampon::LenType::U128);

    let mut from_size = 0;
    match tampon::deserialize_size_seq::<bool>(&buffer, from_size, 0, tampon::LenType::U8) {
        Ok(c) => from_size += c,
        Err(_) => panic!("Test deserialize_size_returns_ok_mixed should not return Err!"),
    }
    match tampon::deserialize_size_seq::<bool>(&buffer, from_size, 0, tampon::LenType::U16) {
        Ok(c) => from_size += c,
        Err(_) => panic!("Test deserialize_size_returns_ok_mixed should not return Err!"),
    }
    match tampon::deserialize_size_seq::<bool>(&buffer, from_size, 0, tampon::LenType::U128) {
        Ok(c) => from_size += c,
        Err(_) => panic!("Test deserialize_size_returns_ok_mixed should not return Err!"),
    }

    assert!(var_size + 1 + 2 + 16 - 3 * 4 == to_size && to_size == from_size);
}

#[test]
// deserialize_size returns Err(DeserializeSizeBufferIncomplete) for incomplete buffer bool
fn deserialize_size_returns_err_bool() {
    let (_bytes_size, buffer) = bool_vars_buffer();
    let truncated: Vec<u8> = buffer[0..buffer.len() / 2].to_vec();
    match probe_bool_vars(&truncated, 0) {
        Ok(_) => panic!("Test deserialize_size_returns_err_bool should return err!"),
        Err(err) => assert_eq!(err, TamponError::DeserializeSizeBufferIncomplete),
    }

    let (_bytes_size, buffer) = bool_slices_buffer();
    let truncated: Vec<u8> = buffer[0..buffer.len() - 1].to_vec();
    match probe_bool_slices(&truncated, 0) {
        Ok(_) => panic!("Test deserialize_size_returns_err_bool should return err!"),
        Err(err) => assert_eq!(err, TamponError::DeserializeSizeBufferIncomplete),
    }
}

#[test]
// deserialize_size returns Err(DeserializeSizeBufferIncomplete) for incomplete buffer numeric
fn deserialize_size_returns_err_numeric() {
    let (_bytes_size, buffer) = numeric_vars_buffer();
    let truncated: Vec<u8> = buffer[0..buffer.len() / 2].to_vec();
    match probe_numeric_vars(&truncated, 0) {
        Ok(_) => panic!("Test deserialize_size_returns_err_numeric should return err!"),
        Err(err) => assert_eq!(err, TamponError::DeserializeSizeBufferIncomplete),
    }

    let (_bytes_size, buffer) = numeric_slices_buffer();
    let truncated: Vec<u8> = buffer[0..buffer.len() - 1].to_vec();
    match probe_numeric_slices(&truncated, 0) {
        Ok(_) => panic!("Test deserialize_size_returns_err_numeric should return err!"),
        Err(err) => assert_eq!(err, TamponError::DeserializeSizeBufferIncomplete),
    }
}

#[test]
// deserialize_size returns Err(DeserializeSizeBufferIncomplete) for incomplete buffer string
fn deserialize_size_returns_err_string() {
    let (_bytes_size, buffer) = string_vars_buffer();
    let truncated: Vec<u8> = buffer[0..buffer.len() / 2].to_vec();
    match probe_string_vars(&truncated, 0) {
        Ok(_) => panic!("Test deserialize_size_returns_err_string should return err!"),
        Err(err) => assert_eq!(err, TamponError::DeserializeSizeBufferIncomplete),
    }

    let (_bytes_size, buffer) = string_slices_buffer();
    let truncated: Vec<u8> = buffer[0..buffer.len() - 1].to_vec();
    match probe_string_slices(&truncated, 0) {
        Ok(_) => panic!("Test deserialize_size_returns_err_string should return err!"),
        Err(err) => assert_eq!(err, TamponError::DeserializeSizeBufferIncomplete),
    }
}

#[test]
// deserialize_size returns Err(DeserializeSizeBufferIncomplete) for incomplete buffer record
fn deserialize_size_returns_err_tampon() {
    let (_bytes_size, buffer) = tampon_vars_buffer();
    let truncated: Vec<u8> = buffer[0..buffer.len() / 2].to_vec();
    match probe_tampon_vars(&truncated, 0) {
        Ok(_) => panic!("Test deserialize_size_returns_err_tampon should return err!"),
        Err(err) => assert_eq!(err, TamponError::DeserializeSizeBufferIncomplete),
    }

    let (_bytes_size, buffer) = tampon_slices_buffer();
    let truncated: Vec<u8> = buffer[0..buffer.len() - 1].to_vec();
    match probe_tampon_slices(&truncated, 0) {
        Ok(_) => panic!("Test deserialize_size_returns_err_tampon should return err!"),
        Err(err) => assert_eq!(err, TamponError::DeserializeSizeBufferIncomplete),
    }
}

#[test]
// deserialize_size returns Err(DeserializeSizeBufferIncomplete) for incomplete buffer all types
fn deserialize_size_returns_err_mixed() {
    let (_bytes_size, buffer) = mixed_buffer();
    let truncated: Vec<u8> = buffer[0..buffer.len() - 1].to_vec();
    match probe_mixed(&truncated, 0) {
        Ok(_) => panic!("Test deserialize_size_returns_err_mixed should return err!"),
        Err(err) => assert_eq!(err, TamponError::DeserializeSizeBufferIncomplete),
    }
}

#[test]
// deserialize_size returns Err(DeserializeSizeGreaterThanMax) for size > optional max_size
fn deserialize_size_returns_err_greater_max_bool() {
    let (bytes_size, buffer) = bool_vars_buffer();
    match probe_bool_vars(&buffer, bytes_size - 1) {
        Ok(_) => panic!("0. deserialize_size! should returns Err(DeserializeSizeGreaterThanMax)!"),
        Err(err) => assert_eq!(err, TamponError::DeserializeSizeGreaterThanMax),
    }

    let (bytes_size, buffer) = bool_slices_buffer();
    match probe_bool_slices(&buffer, bytes_size - 1) {
        Ok(_) => panic!("1. deserialize_size! should returns Err(DeserializeSizeGreaterThanMax)!"),
        Err(err) => assert_eq!(err, TamponError::DeserializeSizeGreaterThanMax),
    }
}

#[test]
// deserialize_size returns Err(DeserializeSizeGreaterThanMax) for size > optional max_size for numeric
fn deserialize_size_returns_err_greater_max_numeric() {
    let (bytes_size, buffer) = numeric_vars_buffer();
    match probe_numeric_vars(&buffer, bytes_size - 1) {
        Ok(_) => panic!("deserialize_size! should returns Err(DeserializeSizeGreaterThanMax)!"),
        Err(err) => assert_eq!(err, TamponError::DeserializeSizeGreaterThanMax),
    }

    let (bytes_size, buffer) = numeric_slices_buffer();
    match probe_numeric_slices(&buffer, bytes_size - 1) {
        Ok(_) => panic!("deserialize_size! should returns Err(DeserializeSizeGreaterThanMax)!"),
        Err(err) => assert_eq!(err, TamponError::DeserializeSizeGreaterThanMax),
    }
}

#[test]
// deserialize_size returns Err(DeserializeSizeGreaterThanMax) for size > optional max_size for string
fn deserialize_size_returns_err_greater_max_string() {
    let (bytes_size, buffer) = string_vars_buffer();
    match probe_string_vars(&buffer, bytes_size - 1) {
        Ok(_) => panic!("deserialize_size! should returns Err(DeserializeSizeGreaterThanMax)!"),
        Err(err) => assert_eq!(err, TamponError::DeserializeSizeGreaterThanMax),
    }

    let (bytes_size, buffer) = string_slices_buffer();
    match probe_string_slices(&buffer, bytes_size - 1) {
        Ok(_) => panic!("deserialize_size! should returns Err(DeserializeSizeGreaterThanMax)!"),
        Err(err) => assert_eq!(err, TamponError::DeserializeSizeGreaterThanMax),
    }
}

#[test]
// deserialize_size returns Err(DeserializeSizeGreaterThanMax) for size > optional max_size for record
fn deserialize_size_returns_err_greater_max_tampon() {
    let (bytes_size, buffer) = tampon_vars_buffer();
    match probe_tampon_vars(&buffer, bytes_size - 1) {
        Ok(_) => panic!("deserialize_size! should returns Err(DeserializeSizeGreaterThanMax)!"),
        Err(err) => assert_eq!(err, TamponError::DeserializeSizeGreaterThanMax),
    }

    let (bytes_size, buffer) = tampon_slices_buffer();
    match probe_tampon_slices(&buffer, bytes_size - 1) {
        Ok(_) => panic!("deserialize_size! should returns Err(DeserializeSizeGreaterThanMax)!"),
        Err(err) => assert_eq!(err, TamponError::DeserializeSizeGreaterThanMax),
    }
}

#[test]
// deserialize_size returns Err(DeserializeSizeGreaterThanMax) for size > optional max_size for all types
fn deserialize_size_returns_err_greater_max_mixed() {
    let (bytes_size, buffer) = mixed_buffer();
    match probe_mixed(&buffer, bytes_size - 1) {
        Ok(_) => panic!("deserialize_size! should returns Err(DeserializeSizeGreaterThanMax)!"),
        Err(err) => assert_eq!(err, TamponError::DeserializeSizeGreaterThanMax),
    }
}

#[test]
// deserialize_size returns Ok(size) for size == optional max_size
fn deserialize_size_equal_max() {
    let (bytes_size, buffer) = numeric_slices_buffer();
    match probe_numeric_slices(&buffer, bytes_size) {
        Ok(size) => assert!(size == bytes_size),
        Err(_) => panic!("deserialize_size! should returns Ok(size)!"),
    }
}

#[test]
// deserialize_size returns Ok(size) for size < optional max_size
fn deserialize_size_less_than_max() {
    let (bytes_size, buffer) = numeric_slices_buffer();
    match probe_numeric_slices(&buffer, bytes_size + 1) {
        Ok(size) => assert!(size < bytes_size + 1),
        Err(_) => panic!("deserialize_size! should returns Ok(size)!"),
    }
}

#[test]
// deserialize_size returns Ok(size) for optional max_size == 0
fn deserialize_size_zero_max() {
    let (bytes_size, buffer) = numeric_slices_buffer();
    match probe_numeric_slices(&buffer, 0) {
        Ok(size) => assert!(size == bytes_size),
        Err(_) => panic!("deserialize_size! should returns Ok(size)!"),
    }
}
