//! The guitar tunings that every registry starts with, and lookups in them.
use crate::cents::{
    cents, fraction_digits, lemma_cents_monotone, lemma_octave_is, log2_fixed, mantissa,
    MANTISSA_ONE,
};
use crate::fixed::abs_diff;
use vstd::arithmetic::power2::{lemma2_to64, pow2};
use crate::tuning::{nearest_in, zip_notes, NoteView, TuningRegistry};
use vstd::prelude::*;
use vstd::string::*;

verus! {

/// Standard tuning: E2 A2 D3 G3 B3 E4.
pub open spec fn standard_e_notes() -> Seq<NoteView> {
    seq![
        ("E2"@, 82_410int),
        ("A2"@, 110_000int),
        ("D3"@, 146_830int),
        ("G3"@, 196_000int),
        ("B3"@, 246_940int),
        ("E4"@, 329_630int),
    ]
}

/// Standard tuning lowered by a half step.
pub open spec fn flat_e_notes() -> Seq<NoteView> {
    seq![
        ("Eb2"@, 77_780int),
        ("Ab2"@, 103_830int),
        ("Db3"@, 138_590int),
        ("Gb3"@, 185_000int),
        ("Bb3"@, 233_080int),
        ("Eb4"@, 311_130int),
    ]
}

/// Standard tuning with the lowest string lowered to D2.
pub open spec fn drop_d_notes() -> Seq<NoteView> {
    seq![
        ("D2"@, 73_420int),
        ("A2"@, 110_000int),
        ("D3"@, 146_830int),
        ("G3"@, 196_000int),
        ("B3"@, 246_940int),
        ("E4"@, 329_630int),
    ]
}

/// The built-in schemes by id.
pub open spec fn standard_tunings() -> Map<Seq<char>, Seq<NoteView>> {
    Map::<Seq<char>, Seq<NoteView>>::empty().insert("standard-e"@, standard_e_notes()).insert(
        "flat-e"@,
        flat_e_notes(),
    ).insert("drop-d"@, drop_d_notes())
}

/// The length of a name with its first, second and last character: names
/// that differ in any of these are different names.
spec fn tag(s: Seq<char>) -> (nat, char, char, char) {
    (s.len(), s[0], s[1], s.last())
}

proof fn lemma_tags_differ(names: Seq<String>)
    requires
        names.len() == 6,
        tag(names[0]@) != tag(names[1]@),
        tag(names[0]@) != tag(names[2]@),
        tag(names[0]@) != tag(names[3]@),
        tag(names[0]@) != tag(names[4]@),
        tag(names[0]@) != tag(names[5]@),
        tag(names[1]@) != tag(names[2]@),
        tag(names[1]@) != tag(names[3]@),
        tag(names[1]@) != tag(names[4]@),
        tag(names[1]@) != tag(names[5]@),
        tag(names[2]@) != tag(names[3]@),
        tag(names[2]@) != tag(names[4]@),
        tag(names[2]@) != tag(names[5]@),
        tag(names[3]@) != tag(names[4]@),
        tag(names[3]@) != tag(names[5]@),
        tag(names[4]@) != tag(names[5]@),
    ensures
        forall|i: int, j: int| 0 <= i < j < 6 ==> names[i]@ != names[j]@,
{
}

/// The display labels of the built-in schemes by id.
pub open spec fn standard_labels() -> Map<Seq<char>, Seq<char>> {
    Map::<Seq<char>, Seq<char>>::empty().insert("standard-e"@, "Standard E"@).insert(
        "flat-e"@,
        "Half step down"@,
    ).insert("drop-d"@, "Drop D"@)
}

fn six_names(a: &str, b: &str, c: &str, d: &str, e: &str, f: &str) -> (v: Vec<String>)
    ensures
        v@.len() == 6,
        v@[0]@ == a@,
        v@[1]@ == b@,
        v@[2]@ == c@,
        v@[3]@ == d@,
        v@[4]@ == e@,
        v@[5]@ == f@,
{
    let mut v: Vec<String> = Vec::new();
    v.push(a.to_owned());
    v.push(b.to_owned());
    v.push(c.to_owned());
    v.push(d.to_owned());
    v.push(e.to_owned());
    v.push(f.to_owned());
    v
}

fn six_freqs(a: u32, b: u32, c: u32, d: u32, e: u32, f: u32) -> (v: Vec<u32>)
    ensures
        v@ == seq![a, b, c, d, e, f],
{
    let mut v: Vec<u32> = Vec::new();
    v.push(a);
    v.push(b);
    v.push(c);
    v.push(d);
    v.push(e);
    v.push(f);
    assert(v@ =~= seq![a, b, c, d, e, f]);
    v
}

fn add_six(
    registry: &mut TuningRegistry,
    id: &str,
    label: &str,
    names: Vec<String>,
    freqs: Vec<u32>,
)
    requires
        old(registry).wf(),
        names@.len() == 6,
        freqs@.len() == 6,
        forall|i: int| 0 <= i < 6 ==> freqs@[i] > 0,
        forall|i: int, j: int| 0 <= i < j < 6 ==> names@[i]@ != names@[j]@,
    ensures
        final(registry).wf(),
        final(registry)@ == old(registry)@.insert(id@, zip_notes(names@, freqs@)),
        final(registry).labels() == old(registry).labels().insert(id@, label@),
{
    let r = registry.register_tuning(id, label, names.as_slice(), freqs.as_slice());
    assert(r is Ok);
}

/// A registry holding the built-in schemes `standard-e`, `flat-e` and
/// `drop-d`.
pub fn tunings() -> (registry: TuningRegistry)
    ensures
        registry.wf(),
        registry@ == standard_tunings(),
        registry.labels() == standard_labels(),
{
    let mut registry = TuningRegistry::new();
    proof {
        reveal_strlit("E2");
        reveal_strlit("A2");
        reveal_strlit("D3");
        reveal_strlit("G3");
        reveal_strlit("B3");
        reveal_strlit("E4");
        reveal_strlit("Eb2");
        reveal_strlit("Ab2");
        reveal_strlit("Db3");
        reveal_strlit("Gb3");
        reveal_strlit("Bb3");
        reveal_strlit("Eb4");
        reveal_strlit("D2");
    }
    let names = six_names("E2", "A2", "D3", "G3", "B3", "E4");
    proof {
        lemma_tags_differ(names@);
    }
    let freqs = six_freqs(82_410, 110_000, 146_830, 196_000, 246_940, 329_630);
    assert(zip_notes(names@, freqs@) =~= standard_e_notes());
    add_six(&mut registry, "standard-e", "Standard E", names, freqs);
    let names = six_names("Eb2", "Ab2", "Db3", "Gb3", "Bb3", "Eb4");
    proof {
        lemma_tags_differ(names@);
    }
    let freqs = six_freqs(77_780, 103_830, 138_590, 185_000, 233_080, 311_130);
    assert(zip_notes(names@, freqs@) =~= flat_e_notes());
    add_six(&mut registry, "flat-e", "Half step down", names, freqs);
    let names = six_names("D2", "A2", "D3", "G3", "B3", "E4");
    proof {
        lemma_tags_differ(names@);
    }
    let freqs = six_freqs(73_420, 110_000, 146_830, 196_000, 246_940, 329_630);
    assert(zip_notes(names@, freqs@) =~= drop_d_notes());
    add_six(&mut registry, "drop-d", "Drop D", names, freqs);
    registry
}

/// The note of the built-in scheme `tuning` nearest to `freq`: its name, its
/// frequency and its distance from `freq`; nothing for any other id.
pub fn find_closest_note(freq: u32, tuning: &str) -> (r: Option<(String, u32, u32)>)
    ensures
        match r {
            None => !standard_tunings().dom().contains(tuning@),
            Some((name, f, d)) => standard_tunings().dom().contains(tuning@) && nearest_in(
                standard_tunings()[tuning@],
                freq as int,
            ) == Some((name@, f as int, d as int)),
        },
{
    let registry = tunings();
    proof {
        if standard_tunings().dom().contains(tuning@) {
            assert(standard_tunings()[tuning@].len() == 6);
        }
    }
    registry.nearest_note(tuning, freq)
}

/// The string of standard tuning nearest to `freq`: its frequency, the
/// signed offset of `freq` from it, and its name.
pub fn find_string_and_distance(freq: u32) -> (r: (u32, i64, String))
    ensures
        nearest_in(standard_e_notes(), freq as int) == Some(
            (r.2@, r.0 as int, abs_diff(r.0 as int, freq as int)),
        ),
        r.1 == freq - r.0,
{
    let registry = tunings();
    proof {
        assert(standard_tunings()["standard-e"@] == standard_e_notes()) by {
            reveal_strlit("standard-e");
            reveal_strlit("flat-e");
            reveal_strlit("drop-d");
            assert("standard-e"@.len() == 10);
            assert("flat-e"@.len() == 6);
            assert("drop-d"@.len() == 6);
        }
        assert(standard_e_notes().len() == 6);
    }
    match registry.nearest_note("standard-e", freq) {
        Some((name, f, _)) => (f, freq as i64 - f as i64, name),
        None => {
            proof {
                assert(false);
            }
            (0, 0, String::new())
        },
    }
}

/// One digit of the fraction: what `fraction_digits` goes on with after
/// the square of the mantissa `m` is known.
pub proof fn lemma_digit_step(m: int, bits: nat, digits: int, square: int)
    requires
        bits > 0,
        square == (m * m) / (MANTISSA_ONE as int),
    ensures
        fraction_digits(m, bits, digits) == (if square >= 2 * MANTISSA_ONE {
            fraction_digits(square / 2, (bits - 1) as nat, 2 * digits + 1)
        } else {
            fraction_digits(square, (bits - 1) as nat, 2 * digits)
        }),
{
}

/// 82.648 Hz is 4.992 cents above the low E string, digit by digit.
proof fn lemma_cents_above_low_e()
    ensures
        cents(82_648, 82_410) == 4_992,
{
    lemma2_to64();
    assert(82_410 * pow2(0) == 82_410) by (nonlinear_arith)
        requires
            pow2(0) == 1,
    ;
    lemma_octave_is(82_648, 82_410, 0);
    assert((82_648int * MANTISSA_ONE) / (82_410int * pow2(0)) == 1156251140792946109)
        by (nonlinear_arith)
        requires
            pow2(0) == 1,
            MANTISSA_ONE == 0x1000_0000_0000_0000,
    ;
    lemma_digit_step(1156251140792946109, 24, 0, 1159590392965118432);
    lemma_digit_step(1159590392965118432, 23, 0, 1166297856431718927);
    lemma_digit_step(1166297856431718927, 22, 0, 1179829402506527061);
    lemma_digit_step(1179829402506527061, 21, 0, 1207365300635612623);
    lemma_digit_step(1207365300635612623, 20, 0, 1264380066946550795);
    lemma_digit_step(1264380066946550795, 19, 0, 1386613873801335423);
    lemma_digit_step(1386613873801335423, 18, 0, 1667674709280400762);
    lemma_digit_step(1667674709280400762, 17, 0, 2412253501093167620);
    lemma_digit_step(1206126750546583810, 16, 1, 1261787322529070797);
    lemma_digit_step(1261787322529070797, 15, 2, 1380932909077794746);
    lemma_digit_step(1380932909077794746, 14, 4, 1654037756910736847);
    lemma_digit_step(1654037756910736847, 13, 8, 2372963718999447113);
    lemma_digit_step(1186481859499723556, 12, 17, 1221019121680767945);
    lemma_digit_step(1221019121680767945, 11, 34, 1293138942723143569);
    lemma_digit_step(1293138942723143569, 10, 68, 1450409519212986206);
    lemma_digit_step(1450409519212986206, 9, 136, 1824658283341688317);
    lemma_digit_step(1824658283341688317, 8, 272, 2887774959235212099);
    lemma_digit_step(1443887479617606049, 7, 545, 1808285338998352340);
    lemma_digit_step(1808285338998352340, 6, 1090, 2836182562447249861);
    lemma_digit_step(1418091281223624930, 5, 2181, 1744249607494500760);
    lemma_digit_step(1744249607494500760, 4, 4362, 2638867157120292039);
    lemma_digit_step(1319433578560146019, 3, 8725, 1509994358918382622);
    lemma_digit_step(1509994358918382622, 2, 17450, 1977656722382725475);
    lemma_digit_step(1977656722382725475, 1, 34900, 3392361141636699319);
    assert(log2_fixed(82_648, 82_410) == 69801);
}

/// 82.173 Hz is 4.986 cents below the low E string, digit by digit.
proof fn lemma_cents_below_low_e()
    ensures
        cents(82_173, 82_410) == -4_986,
{
    lemma2_to64();
    assert(82_173 * pow2(1) == 164_346) by (nonlinear_arith)
        requires
            pow2(1) == 2,
    ;
    lemma_octave_is(82_173, 82_410, -1);
    assert((82_173int * pow2(1) * MANTISSA_ONE) / 82_410int == 2299211716977513325)
        by (nonlinear_arith)
        requires
            pow2(1) == 2,
            MANTISSA_ONE == 0x1000_0000_0000_0000,
    ;
    lemma_digit_step(2299211716977513325, 24, 0, 4585198990879582634);
    lemma_digit_step(2292599495439791317, 23, 1, 4558864090476928809);
    lemma_digit_step(2279432045238464404, 22, 3, 4506647181181524409);
    lemma_digit_step(2253323590590762204, 21, 7, 4404000778564964962);
    lemma_digit_step(2202000389282482481, 20, 15, 4205668551610263958);
    lemma_digit_step(2102834275805131979, 19, 31, 3835397270179978040);
    lemma_digit_step(1917698635089989020, 18, 63, 3189781819777990206);
    lemma_digit_step(1594890909888995103, 17, 127, 2206288116131510221);
    lemma_digit_step(2206288116131510221, 16, 254, 4222063021578424956);
    lemma_digit_step(2111031510789212478, 15, 509, 3865357721005179789);
    lemma_digit_step(1932678860502589894, 14, 1019, 3239810830926716691);
    lemma_digit_step(1619905415463358345, 13, 2039, 2276038346550181634);
    lemma_digit_step(2276038346550181634, 12, 4078, 4493237860745267962);
    lemma_digit_step(2246618930372633981, 11, 8157, 4377831966999206843);
    lemma_digit_step(2188915983499603421, 10, 16315, 4155836423967055565);
    lemma_digit_step(2077918211983527782, 9, 32631, 3745046023029293108);
    lemma_digit_step(1872523011514646554, 8, 65263, 3041267262897975497);
    lemma_digit_step(1520633631448987748, 7, 130527, 2005623654215950204);
    lemma_digit_step(2005623654215950204, 6, 261054, 3488985352669127750);
    lemma_digit_step(1744492676334563875, 5, 522109, 2639602683812110185);
    lemma_digit_step(1319801341906055092, 4, 1044219, 1510836232247236611);
    lemma_digit_step(1510836232247236611, 3, 2088438, 1979862559202948370);
    lemma_digit_step(1979862559202948370, 2, 4176876, 3399932898875316008);
    lemma_digit_step(1699966449437658004, 1, 8353753, 2506576482151007818);
    assert(log2_fixed(82_173, 82_410) == -69709);
}

/// An estimate from 82.173 Hz to 82.648 Hz is less than five cents from
/// the low E string.
pub proof fn lemma_low_e_within_five_cents(freq: int)
    requires
        82_173 <= freq <= 82_648,
    ensures
        -5_000 < cents(freq, 82_410) < 5_000,
{
    lemma_cents_above_low_e();
    lemma_cents_below_low_e();
    lemma_cents_monotone(82_173, freq, 82_410);
    lemma_cents_monotone(freq, 82_648, 82_410);
}

} // verus!
