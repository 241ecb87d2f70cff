use blst::{blst_fp, blst_p1, blst_p1_affine, p1_affines, MultiPoint};
use blst_from_scratch::recovery::{
    check_known, check_zero_set, divide_pointwise, fill_missing, mask_samples, missing_indices,
    power_of_two, recover_samples, shift_coefficients, Recoverable, RecoveryError, TransformDomain,
};
use blst_from_scratch::types::fr::FsFr;
use blst_from_scratch::types::g1::FsG1;
use blst_from_scratch::types::poly::{FsPoly, FsPolyG1};
use rand::rngs::StdRng;
use rand::{RngCore, SeedableRng};

// ---------------------------------------------------------------------
// A reference transform domain: radix-2 transforms over the roots of
// unity of the scalar field, for field elements and for points of G1.
// ---------------------------------------------------------------------

/// A primitive 2^32-th root of unity: 7 to the power (r - 1) / 2^32.
const ROOT_OF_UNITY_2_32: [u64; 4] = [
    0x3829_971f_439f_0d2b,
    0xb636_8350_8c22_80b9,
    0xd09b_6819_22c8_13b4,
    0x16a2_a19e_dfe8_1f20,
];

/// The base-field modulus, for negating a point.
const FP_MODULUS: [u64; 6] = [
    0xb9fe_ffff_ffff_aaab,
    0x1eab_fffe_b153_ffff,
    0x6730_d2a0_f6b0_f624,
    0x6477_4b84_f385_12bf,
    0x4b1b_a7b6_434b_acd7,
    0x1a01_11ea_397f_e69a,
];

const GENERATOR_X: [u64; 6] = [
    0x5cb3_8790_fd53_0c16,
    0x7817_fc67_9976_fff5,
    0x154f_95c7_143b_a1c1,
    0xf0ae_6acd_f3d0_e747,
    0xedce_6ecc_21db_f440,
    0x1201_7741_9e0b_fb75,
];

const GENERATOR_Y: [u64; 6] = [
    0xbaac_93d5_0ce7_2271,
    0x8c22_631a_7918_fd8e,
    0xdd59_5f13_5707_25ce,
    0x51ac_5829_5040_5194,
    0x0e1c_8c3f_ad00_59c0,
    0x0bbc_3efc_5008_a26a,
];

fn generator() -> FsG1 {
    FsG1 { x: GENERATOR_X, y: GENERATOR_Y }
}

fn to_blst(p: &FsG1) -> blst_p1_affine {
    blst_p1_affine { x: blst_fp { l: p.x }, y: blst_fp { l: p.y } }
}

fn from_blst(p: blst_p1) -> FsG1 {
    let affine = p1_affines::from(&[p]);
    FsG1 { x: affine[0].x.l, y: affine[0].y.l }
}

fn g1_add(a: &FsG1, b: &FsG1) -> FsG1 {
    from_blst(MultiPoint::add(&[to_blst(a), to_blst(b)][..]))
}

fn g1_neg(a: &FsG1) -> FsG1 {
    if a.is_identity() {
        return *a;
    }
    let mut y = [0u64; 6];
    let mut borrow = 0u64;
    for i in 0..6 {
        let (d, b1) = FP_MODULUS[i].overflowing_sub(a.y[i]);
        let (d, b2) = d.overflowing_sub(borrow);
        y[i] = d;
        borrow = (b1 || b2) as u64;
    }
    FsG1 { x: a.x, y }
}

fn g1_rand() -> FsG1 {
    generator().mul(&FsFr::rand())
}

/// What the transforms need beyond scaling.
trait Additive: Recoverable {
    fn plus(&self, other: &Self) -> Self;
    fn minus(&self, other: &Self) -> Self;
}

impl Additive for FsFr {
    fn plus(&self, other: &Self) -> Self {
        self.add(other)
    }
    fn minus(&self, other: &Self) -> Self {
        self.sub(other)
    }
}

impl Additive for FsG1 {
    fn plus(&self, other: &Self) -> Self {
        g1_add(self, other)
    }
    fn minus(&self, other: &Self) -> Self {
        g1_add(self, &g1_neg(other))
    }
}

struct FftSettings {
    max_width: usize,
    expanded_roots_of_unity: Vec<FsFr>,
    reverse_roots_of_unity: Vec<FsFr>,
}

impl FftSettings {
    fn new(scale: usize) -> Result<FftSettings, String> {
        if scale > 32 {
            return Err(String::from("scale is expected to be at most 32"));
        }
        let max_width = 1usize << scale;
        let mut root = FsFr::from_u64_arr(&ROOT_OF_UNITY_2_32);
        for _ in scale..32 {
            root = root.sqr();
        }
        let mut expanded = Vec::with_capacity(max_width + 1);
        let mut power = FsFr::one();
        for _ in 0..max_width {
            expanded.push(power);
            power = power.mul(&root);
        }
        if !power.is_one() {
            return Err(String::from("the root does not have the order of the width"));
        }
        expanded.push(power);
        let mut reverse = expanded.clone();
        reverse.reverse();
        Ok(FftSettings {
            max_width,
            expanded_roots_of_unity: expanded,
            reverse_roots_of_unity: reverse,
        })
    }

    fn get_max_width(&self) -> usize {
        self.max_width
    }

    fn fft<T: Additive>(&self, data: &[T], inverse: bool) -> Result<Vec<T>, String> {
        if data.len() > self.max_width {
            return Err(String::from("Supplied list is longer than the available max width"));
        }
        if !data.len().is_power_of_two() {
            return Err(String::from("A list with power-of-two length expected"));
        }
        let stride = self.max_width / data.len();
        let mut out = vec![T::neutral(); data.len()];
        let roots = if inverse { &self.reverse_roots_of_unity } else { &self.expanded_roots_of_unity };
        fft_fast(&mut out, data, 1, roots, stride);
        if inverse {
            let inv_len = FsFr::from_u64(data.len() as u64).inverse();
            for value in out.iter_mut() {
                *value = value.scale(&inv_len);
            }
        }
        Ok(out)
    }

    fn fft_fr(&self, data: &[FsFr], inverse: bool) -> Result<Vec<FsFr>, String> {
        self.fft(data, inverse)
    }

    fn fft_g1(&self, data: &[FsG1], inverse: bool) -> Result<Vec<FsG1>, String> {
        self.fft(data, inverse)
    }

    /// The product of (x - w^m) over the missing positions m: values at
    /// the domain points, and coefficients padded to the width.
    fn zero_poly(&self, width: usize, missing: &[usize]) -> (Vec<FsFr>, Vec<FsFr>) {
        if width > self.max_width || !width.is_power_of_two() {
            return (Vec::new(), Vec::new());
        }
        let stride = self.max_width / width;
        let mut coeffs = vec![FsFr::zero(); width];
        coeffs[0] = FsFr::one();
        for (degree, &m) in missing.iter().enumerate() {
            let root = self.expanded_roots_of_unity[m * stride];
            for j in (1..=degree + 1).rev() {
                coeffs[j] = coeffs[j - 1].sub(&root.mul(&coeffs[j]));
            }
            coeffs[0] = root.mul(&coeffs[0]).negate();
        }
        let evals = self.fft_fr(&coeffs, false).unwrap();
        (evals, coeffs)
    }
}

fn fft_fast<T: Additive>(out: &mut [T], data: &[T], stride: usize, roots: &[FsFr], roots_stride: usize) {
    let half = out.len() / 2;
    if half > 0 {
        let (lo, hi) = out.split_at_mut(half);
        fft_fast(lo, data, stride * 2, roots, roots_stride * 2);
        fft_fast(hi, &data[stride..], stride * 2, roots, roots_stride * 2);
        for i in 0..half {
            let y_times_root = hi[i].scale(&roots[i * roots_stride]);
            hi[i] = lo[i].minus(&y_times_root);
            lo[i] = lo[i].plus(&y_times_root);
        }
    } else {
        out[0] = data[0];
    }
}

impl<T: Additive> TransformDomain<T> for FftSettings {
    fn transform(&self, values: &[T], inverse: bool) -> Vec<T> {
        self.fft(values, inverse).unwrap_or_default()
    }

    fn transform_scalars(&self, values: &[FsFr], inverse: bool) -> Vec<FsFr> {
        self.fft_fr(values, inverse).unwrap_or_default()
    }

    fn annihilator(&self, width: usize, missing: &[usize]) -> (Vec<FsFr>, Vec<FsFr>) {
        self.zero_poly(width, missing)
    }

    fn coset_factor(&self) -> FsFr {
        FsFr::from_u64(5).inverse()
    }

    fn coset_factor_inverse(&self) -> FsFr {
        FsFr::from_u64(5)
    }
}

/// A domain that must never be asked for anything.
struct Untouchable;

impl TransformDomain<FsFr> for Untouchable {
    fn transform(&self, _values: &[FsFr], _inverse: bool) -> Vec<FsFr> {
        panic!("the domain was asked for a transform")
    }
    fn transform_scalars(&self, _values: &[FsFr], _inverse: bool) -> Vec<FsFr> {
        panic!("the domain was asked for a transform")
    }
    fn annihilator(&self, _width: usize, _missing: &[usize]) -> (Vec<FsFr>, Vec<FsFr>) {
        panic!("the domain was asked for a vanishing polynomial")
    }
    fn coset_factor(&self) -> FsFr {
        panic!("the domain was asked for its coset factor")
    }
    fn coset_factor_inverse(&self) -> FsFr {
        panic!("the domain was asked for its coset factor")
    }
}

fn shuffle(a: &mut [usize], n: usize) {
    let mut i: u64 = n as u64;
    let mut j: usize;
    let mut tmp: usize;

    let mut rng = StdRng::seed_from_u64(0);
    while i > 0 {
        j = (rng.next_u64() % i) as usize;
        i -= 1;
        tmp = a[j];
        a[j] = a[i as usize];
        a[i as usize] = tmp;
    }
}

fn random_missing<T: Copy>(with_missing: &mut [Option<T>], data: &[T], len_data: usize, known: usize) {
    let mut missing_idx = Vec::new();
    for i in 0..len_data {
        missing_idx.push(i);
        with_missing[i] = Some(data[i]);
    }

    shuffle(&mut missing_idx, len_data);
    for i in 0..(len_data - known) {
        with_missing[missing_idx[i]] = None;
    }
}

#[test]
fn recover_simple_() {
    let fs_query = FftSettings::new(2);
    assert!(fs_query.is_ok());

    let fs: FftSettings = fs_query.unwrap();
    let max_width: usize = fs.get_max_width();

    let mut poly = FsPoly { coeffs: vec![FsFr::default(); max_width] };

    for i in 0..(max_width / 2) {
        poly.coeffs[i] = FsFr::from_u64(i.try_into().unwrap());
    }

    for i in (max_width / 2)..max_width {
        poly.coeffs[i] = FsFr::zero();
    }

    let data_query = fs.fft_fr(&poly.coeffs, false);
    assert!(data_query.is_ok());
    let data = data_query.unwrap();

    let sample: [Option<FsFr>; 4] = [Some(data[0]), None, None, Some(data[3])];

    let recovered_query = FsPoly::recover_poly_from_samples(&sample, &fs);
    assert!(recovered_query.is_ok());
    let recovered = recovered_query.unwrap();

    for (i, item) in data.iter().enumerate().take(max_width) {
        assert!(item.equals(&recovered.coeffs[i]));
    }

    let mut recovered_vec: Vec<FsFr> = Vec::new();

    for i in 0..max_width {
        recovered_vec.push(recovered.coeffs[i]);
    }

    let back_query = fs.fft_fr(&recovered_vec, true);
    assert!(back_query.is_ok());
    let back = back_query.unwrap();

    for (i, back_x) in back[..(max_width / 2)].iter().enumerate() {
        assert!(back_x.equals(&poly.coeffs[i]));
    }

    for back_x in back[(max_width / 2)..max_width].iter() {
        assert!(back_x.is_zero());
    }
}

#[test]
fn recover_random_() {
    let fs_query = FftSettings::new(12);
    assert!(fs_query.is_ok());

    let fs: FftSettings = fs_query.unwrap();
    let max_width: usize = fs.get_max_width();
    let mut poly = FsPoly { coeffs: vec![FsFr::default(); max_width] };

    for i in 0..(max_width / 2) {
        poly.coeffs[i] = FsFr::from_u64(i.try_into().unwrap());
    }

    for i in (max_width / 2)..max_width {
        poly.coeffs[i] = FsFr::zero();
    }

    let data_query = fs.fft_fr(&poly.coeffs, false);
    assert!(data_query.is_ok());
    let data = data_query.unwrap();

    let mut samples = vec![Some(FsFr::default()); max_width];

    for i in 0..10 {
        let known_ratio = 0.5 + (i as f32) * 0.05;
        let known: usize = ((max_width as f32) * known_ratio) as usize;

        for _ in 0..4 {
            random_missing(&mut samples, &data, max_width, known);

            let recovered_query = FsPoly::recover_poly_from_samples(&samples, &fs);
            assert!(recovered_query.is_ok());
            let recovered = recovered_query.unwrap();

            for (j, item) in data.iter().enumerate().take(max_width) {
                assert!(item.equals(&recovered.coeffs[j]));
            }

            let mut recovered_vec: Vec<FsFr> = Vec::new();

            for i in 0..max_width {
                recovered_vec.push(recovered.coeffs[i]);
            }

            let back_query = fs.fft_fr(&recovered_vec, true);
            assert!(back_query.is_ok());
            let back = back_query.unwrap();

            for (i, back_x) in back[..(max_width / 2)].iter().enumerate() {
                assert!(back_x.equals(&poly.coeffs[i]));
            }

            for back_x in back[(max_width / 2)..max_width].iter() {
                assert!(back_x.is_zero());
            }
        }
    }
}

#[test]
fn recover_g1_() {
    //log of number of source record commitments
    let scale: usize = 7;
    //initialize FFT for source comms
    let fs = FftSettings::new(scale).unwrap();
    assert_eq!(fs.get_max_width(), 1 << scale);
    //initialize FFT for extended comms
    let fse = FftSettings::new(scale + 1).unwrap();

    // Make an array of G1 points (imagine they are commitments)
    let mut source_comms: Vec<FsG1> = vec![FsG1::identity(); fs.get_max_width()];
    for i in 0..fs.get_max_width() {
        source_comms[i] = g1_rand();
    }
    let mut extended = source_comms.clone();

    //Inverse FFT to interpolate polynomial over source commitments
    let mut coeffs = fs.fft_g1(&extended, true).unwrap();
    assert_eq!(coeffs.len(), 1 << scale);
    //Pad with 0 to double size
    for _ in 0..fs.get_max_width() {
        coeffs.push(FsG1::identity());
    }
    assert_eq!(coeffs.len(), 1 << (scale + 1));

    //FFT to get extended commitments
    extended = fse.fft_g1(&coeffs, false).unwrap();

    //Source commitments should now be in even places
    for i in 0..fs.get_max_width() {
        assert!(source_comms[i].equals(&extended[2 * i]));
    }
    //Extended commitments in odd places are not 0
    for i in (1..fs.get_max_width()).step_by(2) {
        assert!(!(FsG1::identity().equals(&extended[i])));
    }

    let max_width = fse.get_max_width();
    //keep only proven indices (random for test)
    let known_ratio = 0.5;
    let known: usize = ((max_width as f32) * known_ratio) as usize;

    let mut with_er = vec![Some(FsG1::identity()); max_width];
    random_missing(&mut with_er, &extended, max_width, known);

    let recovered = FsPolyG1::recover_poly_from_samples_g1(&with_er, &fse).unwrap();

    //assert that recovered data is equal to extended data
    for i in 0..max_width {
        assert!(recovered.coeffs[i].equals(&extended[i]));
    }
    //source data is at even indices of recovered data
    for i in 0..max_width / 2 {
        assert!(recovered.coeffs[2 * i].equals(&source_comms[i]), "wrong at {i}");
    }
}

/// A domain that answers as `FftSettings` does, but for one thing.
struct Faulty {
    inner: FftSettings,
    fault: Fault,
}

enum Fault {
    /// The vanishing polynomial's value at this position is replaced.
    ZeroEval(usize, FsFr),
    /// The vanishing polynomial comes one value short.
    ShortAnnihilator,
    /// Forward transforms of values come one value short.
    ShortTransform,
    /// Forward transforms of values are off by one at this position.
    WrongForward(usize),
    /// Transforms of scalars come one value short.
    ShortScalarTransform,
}

impl TransformDomain<FsFr> for Faulty {
    fn transform(&self, values: &[FsFr], inverse: bool) -> Vec<FsFr> {
        let mut out = self.inner.fft_fr(values, inverse).unwrap_or_default();
        if let Fault::ShortTransform = self.fault {
            if !inverse {
                out.pop();
            }
        }
        if let Fault::WrongForward(at) = self.fault {
            if !inverse {
                out[at] = out[at].add(&FsFr::one());
            }
        }
        out
    }

    fn transform_scalars(&self, values: &[FsFr], inverse: bool) -> Vec<FsFr> {
        let mut out = self.inner.fft_fr(values, inverse).unwrap_or_default();
        if let Fault::ShortScalarTransform = self.fault {
            out.pop();
        }
        out
    }

    fn annihilator(&self, width: usize, missing: &[usize]) -> (Vec<FsFr>, Vec<FsFr>) {
        let (mut evals, coeffs) = self.inner.zero_poly(width, missing);
        match self.fault {
            Fault::ZeroEval(at, value) => evals[at] = value,
            Fault::ShortAnnihilator => {
                evals.pop();
            }
            _ => {}
        }
        (evals, coeffs)
    }

    fn coset_factor(&self) -> FsFr {
        FsFr::from_u64(5).inverse()
    }

    fn coset_factor_inverse(&self) -> FsFr {
        FsFr::from_u64(5)
    }
}

fn fr_values(values: &[u64]) -> Vec<FsFr> {
    values.iter().map(|v| FsFr::from_u64(*v)).collect()
}

fn same_fr(a: &[FsFr], b: &[FsFr]) -> bool {
    a.len() == b.len() && a.iter().zip(b.iter()).all(|(x, y)| x.equals(y))
}

fn same_g1(a: &[FsG1], b: &[FsG1]) -> bool {
    a.len() == b.len() && a.iter().zip(b.iter()).all(|(x, y)| x.equals(y))
}

/// The evaluations of a polynomial with `width / 2` coefficients.
fn half_degree_data(fs: &FftSettings, width: usize, seed: u64) -> (Vec<FsFr>, Vec<FsFr>) {
    let mut coeffs = vec![FsFr::zero(); width];
    for i in 0..width / 2 {
        coeffs[i] = FsFr::from_u64(seed + 3 * (i as u64) + 1);
    }
    let data = fs.fft_fr(&coeffs, false).unwrap();
    (coeffs, data)
}

#[test]
fn reference_roots_of_unity_have_the_right_order() {
    let root = FsFr::from_u64_arr(&ROOT_OF_UNITY_2_32);
    let mut power = root;
    for _ in 0..31 {
        power = power.sqr();
    }
    // the 2^31st power is -1, the 2^32nd is 1
    assert!(power.add(&FsFr::one()).is_zero());
    assert!(power.sqr().is_one());
    let fs = FftSettings::new(3).unwrap();
    assert!(fs.expanded_roots_of_unity[8].is_one());
    assert!(fs.expanded_roots_of_unity[4].add(&FsFr::one()).is_zero());
}

#[test]
fn reference_transform_round_trips() {
    let fs = FftSettings::new(4).unwrap();
    let values = fr_values(&[3, 1, 4, 1, 5, 9, 2, 6, 5, 3, 5, 8, 9, 7, 9, 3]);
    let there = fs.fft_fr(&values, false).unwrap();
    assert!(!same_fr(&there, &values));
    assert!(same_fr(&fs.fft_fr(&there, true).unwrap(), &values));
    // the transform of a constant polynomial is that constant everywhere
    let constant = fr_values(&[7, 0, 0, 0]);
    assert!(same_fr(&fs.fft_fr(&constant, false).unwrap(), &fr_values(&[7, 7, 7, 7])));
}

#[test]
fn length_five_is_refused_without_asking_the_domain() {
    let samples: Vec<Option<FsFr>> = vec![Some(FsFr::one()), None, Some(FsFr::one()), None, None];
    assert_eq!(recover_samples(&samples, &Untouchable).err(), Some(RecoveryError::InvalidLength));
    assert_eq!(
        FsPoly::recover_poly_from_samples(&samples, &Untouchable).err(),
        Some(RecoveryError::InvalidLength)
    );
}

#[test]
fn lengths_that_are_no_power_of_two_are_refused() {
    for len in [0usize, 3, 5, 6, 7, 9, 12, 100] {
        let samples: Vec<Option<FsFr>> = vec![Some(FsFr::one()); len];
        assert_eq!(
            recover_samples(&samples, &Untouchable).err(),
            Some(RecoveryError::InvalidLength)
        );
        let points: Vec<Option<FsG1>> = vec![None; len];
        let fs = FftSettings::new(4).unwrap();
        assert_eq!(
            FsPolyG1::recover_poly_from_samples_g1(&points, &fs).err(),
            Some(RecoveryError::InvalidLength)
        );
    }
}

#[test]
fn fully_known_samples_come_back_unchanged() {
    for len in [1usize, 2, 4, 8] {
        let values: Vec<FsFr> = (0..len).map(|i| FsFr::from_u64(10 * i as u64 + 7)).collect();
        let samples: Vec<Option<FsFr>> = values.iter().map(|v| Some(*v)).collect();
        // the domain is not asked for anything
        let recovered = recover_samples(&samples, &Untouchable).unwrap();
        assert!(same_fr(&recovered, &values));
    }
    let fs = FftSettings::new(2).unwrap();
    let points: Vec<FsG1> = (0..4).map(|_| g1_rand()).collect();
    let samples: Vec<Option<FsG1>> = points.iter().map(|p| Some(*p)).collect();
    let recovered = FsPolyG1::recover_poly_from_samples_g1(&samples, &fs).unwrap();
    assert!(same_g1(&recovered.coeffs, &points));
}

#[test]
fn reconstruction_is_idempotent() {
    let fs = FftSettings::new(3).unwrap();
    let (_, data) = half_degree_data(&fs, 8, 11);
    let mut samples: Vec<Option<FsFr>> = data.iter().map(|v| Some(*v)).collect();
    samples[1] = None;
    samples[4] = None;
    samples[6] = None;
    let first = recover_samples(&samples, &fs).unwrap();
    assert!(same_fr(&first, &data));
    let again: Vec<Option<FsFr>> = first.iter().map(|v| Some(*v)).collect();
    let second = recover_samples(&again, &fs).unwrap();
    assert!(same_fr(&second, &first));
}

#[test]
fn no_known_sample_gives_the_neutral_sequence() {
    for len in [1usize, 2, 8] {
        let samples: Vec<Option<FsFr>> = vec![None; len];
        let recovered = recover_samples(&samples, &Untouchable).unwrap();
        assert_eq!(recovered.len(), len);
        assert!(recovered.iter().all(|v| v.is_zero()));
    }
    let fs = FftSettings::new(2).unwrap();
    let points: Vec<Option<FsG1>> = vec![None; 4];
    let recovered = FsPolyG1::recover_poly_from_samples_g1(&points, &fs).unwrap();
    assert_eq!(recovered.coeffs.len(), 4);
    assert!(recovered.coeffs.iter().all(|p| p.is_identity()));
}

#[test]
fn width_four_scenario_with_exact_values() {
    // coefficients [a0, a1, 0, 0] = [9, 4, 0, 0]: the values are
    // 9 + 4 * w^i for the fourth root of unity w
    let fs = FftSettings::new(2).unwrap();
    let coeffs = fr_values(&[9, 4, 0, 0]);
    let data = fs.fft_fr(&coeffs, false).unwrap();
    let w = fs.expanded_roots_of_unity[1];
    assert!(data[0].equals(&FsFr::from_u64(13)));
    assert!(data[1].equals(&FsFr::from_u64(9).add(&FsFr::from_u64(4).mul(&w))));
    assert!(data[2].equals(&FsFr::from_u64(5)));
    assert!(data[3].equals(&FsFr::from_u64(9).sub(&FsFr::from_u64(4).mul(&w))));

    let samples = [Some(data[0]), None, None, Some(data[3])];
    let recovered = recover_samples(&samples, &fs).unwrap();
    assert!(same_fr(&recovered, &data));
    assert!(recovered[2].equals(&FsFr::from_u64(5)));
    let back = fs.fft_fr(&recovered, true).unwrap();
    assert!(same_fr(&back, &coeffs));
}

#[test]
fn threshold_sweep_on_a_small_domain() {
    let fs = FftSettings::new(5).unwrap();
    let width = 32;
    let (coeffs, data) = half_degree_data(&fs, width, 1000);
    let mut rng = StdRng::seed_from_u64(42);
    for known in 16..=32 {
        for _ in 0..3 {
            let mut samples: Vec<Option<FsFr>> = data.iter().map(|v| Some(*v)).collect();
            let mut gone = 0;
            while gone < width - known {
                let at = (rng.next_u64() % width as u64) as usize;
                if samples[at].is_some() {
                    samples[at] = None;
                    gone += 1;
                }
            }
            let recovered = recover_samples(&samples, &fs).unwrap();
            assert!(same_fr(&recovered, &data));
            assert!(same_fr(&fs.fft_fr(&recovered, true).unwrap(), &coeffs));
        }
    }
}

#[test]
fn threshold_sweep_for_group_elements() {
    let fs = FftSettings::new(3).unwrap();
    let width = 8;
    let mut coeffs = vec![FsG1::identity(); width];
    for c in coeffs.iter_mut().take(width / 2) {
        *c = g1_rand();
    }
    let data = fs.fft_g1(&coeffs, false).unwrap();
    let mut rng = StdRng::seed_from_u64(7);
    for known in 4..=8 {
        for _ in 0..2 {
            let mut samples: Vec<Option<FsG1>> = data.iter().map(|v| Some(*v)).collect();
            let mut gone = 0;
            while gone < width - known {
                let at = (rng.next_u64() % width as u64) as usize;
                if samples[at].is_some() {
                    samples[at] = None;
                    gone += 1;
                }
            }
            let recovered = FsPolyG1::recover_poly_from_samples_g1(&samples, &fs).unwrap();
            assert!(same_g1(&recovered.coeffs, &data));
            assert!(same_g1(&fs.fft_g1(&recovered.coeffs, true).unwrap(), &coeffs));
        }
    }
}

#[test]
fn group_and_field_reconstructions_agree() {
    // the group samples are the field samples times the generator
    let fs = FftSettings::new(3).unwrap();
    let (_, data) = half_degree_data(&fs, 8, 5);
    let g = generator();
    let mut field_samples: Vec<Option<FsFr>> = data.iter().map(|v| Some(*v)).collect();
    for at in [0usize, 3, 5, 6] {
        field_samples[at] = None;
    }
    let group_samples: Vec<Option<FsG1>> =
        field_samples.iter().map(|s| s.map(|v| g.mul(&v))).collect();
    let field = recover_samples(&field_samples, &fs).unwrap();
    let group = recover_samples(&group_samples, &fs).unwrap();
    for i in 0..8 {
        assert!(group[i].equals(&g.mul(&field[i])));
    }
}

#[test]
fn interleaved_extension_keeps_the_source_in_even_places() {
    let fs = FftSettings::new(3).unwrap();
    let fse = FftSettings::new(4).unwrap();
    let source = fr_values(&[31, 41, 59, 26, 53, 58, 97, 93]);
    let mut coeffs = fs.fft_fr(&source, true).unwrap();
    coeffs.resize(16, FsFr::zero());
    let extended = fse.fft_fr(&coeffs, false).unwrap();
    let mut samples: Vec<Option<FsFr>> = extended.iter().map(|v| Some(*v)).collect();
    for at in [0usize, 2, 4, 6, 8, 10, 12, 14] {
        samples[at] = None;
    }
    let recovered = recover_samples(&samples, &fse).unwrap();
    for i in 0..8 {
        assert!(recovered[2 * i].equals(&source[i]));
    }
    assert!(same_fr(&recovered, &extended));
}

#[test]
fn too_few_known_samples_give_the_lowest_polynomial_through_them() {
    let fs = FftSettings::new(3).unwrap();
    // a polynomial of full degree: five known values do not determine it
    let coeffs = fr_values(&[1, 2, 3, 4, 5, 6, 7, 8]);
    let data = fs.fft_fr(&coeffs, false).unwrap();
    let mut samples: Vec<Option<FsFr>> = data.iter().map(|v| Some(*v)).collect();
    samples[1] = None;
    samples[2] = None;
    samples[7] = None;
    let recovered = recover_samples(&samples, &fs).unwrap();
    for i in [0usize, 3, 4, 5, 6] {
        assert!(recovered[i].equals(&data[i]));
    }
    assert!(!same_fr(&recovered, &data));
    // five values give a polynomial with five coefficients
    let back = fs.fft_fr(&recovered, true).unwrap();
    assert!(back[5].is_zero() && back[6].is_zero() && back[7].is_zero());
    assert!(!back[4].is_zero());
}

#[test]
fn a_changed_sample_is_taken_as_it_is() {
    let fs = FftSettings::new(3).unwrap();
    let (_, data) = half_degree_data(&fs, 8, 77);
    let mut samples: Vec<Option<FsFr>> = data.iter().map(|v| Some(*v)).collect();
    samples[2] = None;
    samples[5] = None;
    let changed = data[3].add(&FsFr::one());
    samples[3] = Some(changed);
    let recovered = recover_samples(&samples, &fs).unwrap();
    assert!(recovered[3].equals(&changed));
    for i in [0usize, 1, 4, 6, 7] {
        assert!(recovered[i].equals(&data[i]));
    }
    assert!(!recovered[2].equals(&data[2]));
}

#[test]
fn a_wrong_transform_fails_the_final_comparison() {
    let (_, data) = half_degree_data(&FftSettings::new(3).unwrap(), 8, 21);
    let mut samples: Vec<Option<FsFr>> = data.iter().map(|v| Some(*v)).collect();
    samples[2] = None;
    samples[5] = None;
    for at in [0usize, 1, 3, 7] {
        let faulty =
            Faulty { inner: FftSettings::new(3).unwrap(), fault: Fault::WrongForward(at) };
        assert_eq!(
            recover_samples(&samples, &faulty).err(),
            Some(RecoveryError::ReconstructionMismatch)
        );
    }
}

#[test]
fn transforms_of_the_wrong_length_fail_the_final_comparison() {
    let (_, data) = half_degree_data(&FftSettings::new(3).unwrap(), 8, 3);
    let mut samples: Vec<Option<FsFr>> = data.iter().map(|v| Some(*v)).collect();
    samples[0] = None;
    let faulty = Faulty { inner: FftSettings::new(3).unwrap(), fault: Fault::ShortTransform };
    assert_eq!(
        recover_samples(&samples, &faulty).err(),
        Some(RecoveryError::ReconstructionMismatch)
    );
    let faulty =
        Faulty { inner: FftSettings::new(3).unwrap(), fault: Fault::ShortScalarTransform };
    assert_eq!(
        recover_samples(&samples, &faulty).err(),
        Some(RecoveryError::ReconstructionMismatch)
    );
}

#[test]
fn a_domain_that_is_too_narrow_is_refused() {
    // eight samples over a domain of width four
    let narrow = FftSettings::new(2).unwrap();
    let (_, data) = half_degree_data(&FftSettings::new(3).unwrap(), 8, 3);
    let mut samples: Vec<Option<FsFr>> = data.iter().map(|v| Some(*v)).collect();
    samples[0] = None;
    samples[5] = None;
    assert_eq!(narrow.get_max_width(), 4);
    assert_eq!(
        recover_samples(&samples, &narrow).err(),
        Some(RecoveryError::InconsistentZeroPolynomial)
    );
    // fully known samples need no domain at all
    let known: Vec<Option<FsFr>> = data.iter().map(|v| Some(*v)).collect();
    assert!(same_fr(&recover_samples(&known, &narrow).unwrap(), &data));
}

#[test]
fn a_vanishing_polynomial_with_the_wrong_zero_set_is_refused() {
    let (_, data) = half_degree_data(&FftSettings::new(3).unwrap(), 8, 9);
    let mut samples: Vec<Option<FsFr>> = data.iter().map(|v| Some(*v)).collect();
    samples[2] = None;
    samples[6] = None;
    // zero at a known position
    let faulty =
        Faulty { inner: FftSettings::new(3).unwrap(), fault: Fault::ZeroEval(1, FsFr::zero()) };
    assert_eq!(
        recover_samples(&samples, &faulty).err(),
        Some(RecoveryError::InconsistentZeroPolynomial)
    );
    // nonzero at a missing position
    let faulty =
        Faulty { inner: FftSettings::new(3).unwrap(), fault: Fault::ZeroEval(6, FsFr::one()) };
    assert_eq!(
        recover_samples(&samples, &faulty).err(),
        Some(RecoveryError::InconsistentZeroPolynomial)
    );
    // too short
    let faulty = Faulty { inner: FftSettings::new(3).unwrap(), fault: Fault::ShortAnnihilator };
    assert_eq!(
        recover_samples(&samples, &faulty).err(),
        Some(RecoveryError::InconsistentZeroPolynomial)
    );
    // and the same domain without the fault succeeds
    let sound = FftSettings::new(3).unwrap();
    assert!(same_fr(&recover_samples(&samples, &sound).unwrap(), &data));
}

#[test]
fn error_messages() {
    assert_eq!(RecoveryError::InvalidLength.message(), "len_samples must be a power of two");
    assert_eq!(
        RecoveryError::InconsistentZeroPolynomial.message(),
        "recovery error: samples should be none when and only when zero_eval is zero"
    );
    assert_eq!(
        RecoveryError::ReconstructionMismatch.message(),
        "recovery error: samples should be none or equal reconstructed data"
    );
}

#[test]
fn power_of_two_on_small_numbers() {
    let powers = [1usize, 2, 4, 8, 16, 32, 64];
    for n in 0..70usize {
        assert_eq!(power_of_two(n), powers.contains(&n));
    }
    assert!(power_of_two(1 << 31));
    assert!(!power_of_two((1 << 31) + 1));
    assert!(!power_of_two(usize::MAX));
}

#[test]
fn missing_indices_are_the_empty_slots_in_order() {
    let one = Some(FsFr::one());
    let samples = [None, one, one, None, None, one, None, one];
    assert_eq!(missing_indices(&samples), vec![0, 3, 4, 6]);
    let none: [Option<FsFr>; 0] = [];
    assert_eq!(missing_indices(&none), Vec::<usize>::new());
    assert_eq!(missing_indices(&[one, one]), Vec::<usize>::new());
    assert_eq!(missing_indices::<FsFr>(&[None, None]), vec![0, 1]);
}

#[test]
fn zero_set_check_wants_zeros_exactly_at_the_empty_slots() {
    let one = Some(FsFr::one());
    let samples = [one, None, one, None];
    assert!(check_zero_set(&samples, &fr_values(&[5, 0, 7, 0])));
    assert!(!check_zero_set(&samples, &fr_values(&[5, 0, 0, 0])));
    assert!(!check_zero_set(&samples, &fr_values(&[5, 1, 7, 0])));
    assert!(!check_zero_set(&samples, &fr_values(&[0, 5, 0, 7])));
    // one value for each sample
    assert!(!check_zero_set(&samples, &fr_values(&[5, 0, 7])));
    assert!(!check_zero_set(&samples, &fr_values(&[5, 0, 7, 0, 1])));
    assert!(check_zero_set::<FsFr>(&[], &[]));
}

#[test]
fn masking_scales_known_samples_and_fills_the_rest() {
    let samples = [Some(FsFr::from_u64(3)), None, Some(FsFr::from_u64(4)), None];
    let masked = mask_samples(&samples, &fr_values(&[5, 0, 6, 0]));
    assert!(same_fr(&masked, &fr_values(&[15, 0, 24, 0])));
    let filled = fill_missing(&samples);
    assert!(same_fr(&filled, &fr_values(&[3, 0, 4, 0])));
    let g = generator();
    let points = [Some(g), None];
    let masked = mask_samples(&points, &fr_values(&[2, 0]));
    assert!(masked[0].equals(&g1_add(&g, &g)));
    assert!(masked[1].is_identity());
}

#[test]
fn shifting_scales_by_powers_of_the_factor() {
    let shifted = shift_coefficients(&fr_values(&[1, 1, 1, 1, 7]), &FsFr::from_u64(3));
    assert!(same_fr(&shifted, &fr_values(&[1, 3, 9, 27, 567])));
    // shifting by the inverse undoes it
    let k = FsFr::from_u64(5);
    let coeffs = fr_values(&[8, 6, 7, 5, 3, 0, 9]);
    let there = shift_coefficients(&coeffs, &k);
    assert!(same_fr(&shift_coefficients(&there, &k.inverse()), &coeffs));
    let g = generator();
    let points = shift_coefficients(&[g, g, g], &FsFr::from_u64(2));
    assert!(points[0].equals(&g));
    assert!(points[1].equals(&g1_add(&g, &g)));
    assert!(points[2].equals(&g.mul(&FsFr::from_u64(4))));
    assert_eq!(shift_coefficients::<FsFr>(&[], &k).len(), 0);
}

#[test]
fn pointwise_division_uses_the_inverse() {
    let out = divide_pointwise(&fr_values(&[6, 10, 9]), &fr_values(&[2, 5, 1]));
    assert!(same_fr(&out, &fr_values(&[3, 2, 9])));
    // division by zero scales by zero
    let out = divide_pointwise(&fr_values(&[6]), &fr_values(&[0]));
    assert!(out[0].is_zero());
    let g = generator();
    let out = divide_pointwise(&[g.mul(&FsFr::from_u64(6))], &fr_values(&[3]));
    assert!(out[0].equals(&g1_add(&g, &g)));
    // sequences of different lengths have no quotient
    assert_eq!(divide_pointwise(&fr_values(&[6, 10]), &fr_values(&[2])).len(), 0);
    assert_eq!(divide_pointwise(&fr_values(&[6]), &fr_values(&[2, 5])).len(), 0);
}

#[test]
fn known_samples_are_compared_in_place() {
    let samples = [Some(FsFr::from_u64(3)), None, Some(FsFr::from_u64(4))];
    assert!(check_known(&samples, &fr_values(&[3, 99, 4])));
    assert!(!check_known(&samples, &fr_values(&[3, 99, 5])));
    assert!(!check_known(&samples, &fr_values(&[4, 3, 4])));
    assert!(check_known::<FsFr>(&[None, None], &fr_values(&[1, 2])));
    // one value for each sample
    assert!(!check_known(&samples, &fr_values(&[3, 99])));
    assert!(!check_known(&samples, &fr_values(&[3, 99, 4, 0])));
}

#[test]
fn scalar_multiplication_of_points() {
    let g = generator();
    // the generator is a point of the group
    assert!(MultiPoint::validate(&[to_blst(&g)][..]).is_ok());
    assert!(g.mul(&FsFr::one()).equals(&g));
    assert!(g.mul(&FsFr::zero()).is_identity());
    assert!(FsG1::identity().mul(&FsFr::from_u64(12345)).is_identity());
    let double = g.mul(&FsFr::from_u64(2));
    assert!(!double.equals(&g));
    assert!(double.equals(&g1_add(&g, &g)));
    // (r - 1) * G is -G
    let minus_one = FsFr::zero().sub(&FsFr::one());
    assert!(g.mul(&minus_one).equals(&g1_neg(&g)));
    assert!(g1_add(&g.mul(&minus_one), &g).is_identity());
    // a * (b * G) == (a * b) * G and (a + b) * G == a * G + b * G
    let a = FsFr::from_u64_arr(&[0x1234_5678, 0x9abc_def0, 0x0fed_cba9, 0x0765_4321]);
    let b = FsFr::from_u64_arr(&[0xdead_beef, 0xfeed_face, 0xcafe_f00d, 0x1bad_b002]);
    assert!(g.mul(&b).mul(&a).equals(&g.mul(&a.mul(&b))));
    assert!(g.mul(&a.add(&b)).equals(&g1_add(&g.mul(&a), &g.mul(&b))));
    assert!(g.mul(&a.sub(&b)).equals(&g1_add(&g.mul(&a), &g1_neg(&g.mul(&b)))));
    assert!(g.mul(&a).mul(&a.inverse()).equals(&g));
    assert!(g.mul(&a.negate()).equals(&g1_neg(&g.mul(&a))));
    assert!(g.mul(&a.pow(3)).equals(&g.mul(&a).mul(&a).mul(&a)));
    assert!(MultiPoint::validate(&[to_blst(&g.mul(&a))][..]).is_ok());
    // coordinates at or above the base-field modulus stand for no point
    let mut unreduced = g;
    unreduced.x = FP_MODULUS;
    assert!(unreduced.mul(&a).is_identity());
    let mut unreduced = g;
    unreduced.y = [u64::MAX; 6];
    assert!(unreduced.mul(&FsFr::one()).is_identity());
}

#[test]
fn points_are_compared_by_coordinates() {
    let g = generator();
    assert!(g.equals(&g));
    assert!(!g.equals(&FsG1::identity()));
    assert!(FsG1::identity().is_identity());
    assert!(!g.is_identity());
    let mut other = g;
    other.y[5] ^= 1;
    assert!(!g.equals(&other));
    assert_eq!(FsG1::identity().x, [0u64; 6]);
    assert_eq!(FsG1::identity().y, [0u64; 6]);
}
