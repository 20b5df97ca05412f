//! The byte format a network is persisted in, and its verified encoder and
//! decoder.
//!
//! The format is a self-describing, length-prefixed binary blob: two
//! activation tag bytes, the input and output sizes, the learning rate, then
//! the hidden layer count and every layer as a neuron count followed by each
//! neuron's bias, pre-activation sum, activated value, weight count and
//! weights. All multi-byte fields are little endian. Decoding what encoding
//! wrote reproduces every field exactly; see `lemma_round_trip`.

use vstd::prelude::*;

use crate::activation::Activation;
use crate::activation::ActivationType;
use crate::dense_layer::DenseLayer;
use crate::neural_network::NetModel;
use crate::neural_network::NeuralNetwork;
use crate::neural_network::layer_width;
use crate::neural_network::wf_model;
use crate::neuron::Neuron;
use crate::neuron::NeuronModel;

verus! {

/// Why a byte blob was rejected: it ended before a field was complete, or a
/// field it carries is not a valid network (a bad activation tag, trailing
/// bytes, or shapes that break the network invariant).
#[derive(Clone, Copy, Debug, PartialEq, Eq, Structural)]
pub enum DecodeError {
    Truncated,
    Invalid,
}

/// The eight little-endian bytes of `x`.
pub open spec fn u64_le(x: u64) -> Seq<u8> {
    Seq::new(8, |i: int| (x >> (8 * i)) as u8)
}

/// The two little-endian bytes of `x`.
pub open spec fn u16_le(x: u16) -> Seq<u8> {
    Seq::new(2, |i: int| (x >> (8 * i)) as u8)
}

/// The tag byte of an activation kind.
pub open spec fn kind_byte(k: ActivationType) -> u8 {
    match k {
        ActivationType::Relu => 0,
        ActivationType::Sigmoid => 1,
        ActivationType::Tanh => 2,
    }
}

/// The value of the eight little-endian bytes of `s` at position `p`.
pub open spec fn le_u64_at(s: Seq<u8>, p: int) -> u64 {
    (s[p] as u64) | ((s[p + 1] as u64) << 8) | ((s[p + 2] as u64) << 16) | ((s[p + 3] as u64)
        << 24) | ((s[p + 4] as u64) << 32) | ((s[p + 5] as u64) << 40) | ((s[p + 6] as u64) << 48)
        | ((s[p + 7] as u64) << 56)
}

/// The value of the two little-endian bytes of `s` at position `p`.
pub open spec fn le_u16_at(s: Seq<u8>, p: int) -> u16 {
    (s[p] as u16) | ((s[p + 1] as u16) << 8)
}

pub open spec fn enc_scalars(ws: Seq<u64>) -> Seq<u8>
    decreases ws.len(),
{
    if ws.len() == 0 {
        Seq::empty()
    } else {
        u64_le(ws[0]) + enc_scalars(ws.skip(1))
    }
}

pub open spec fn enc_neuron(n: NeuronModel) -> Seq<u8> {
    u64_le(n.bias) + u64_le(n.sum) + u64_le(n.holded) + u64_le(n.weights.len() as u64)
        + enc_scalars(n.weights)
}

pub open spec fn enc_neurons(l: Seq<NeuronModel>) -> Seq<u8>
    decreases l.len(),
{
    if l.len() == 0 {
        Seq::empty()
    } else {
        enc_neuron(l[0]) + enc_neurons(l.skip(1))
    }
}

pub open spec fn enc_layer(l: Seq<NeuronModel>) -> Seq<u8> {
    u64_le(l.len() as u64) + enc_neurons(l)
}

pub open spec fn enc_layers(ls: Seq<Seq<NeuronModel>>) -> Seq<u8>
    decreases ls.len(),
{
    if ls.len() == 0 {
        Seq::empty()
    } else {
        enc_layer(ls[0]) + enc_layers(ls.skip(1))
    }
}

/// The whole blob a network is persisted as.
pub open spec fn spec_encode(m: NetModel) -> Seq<u8> {
    seq![kind_byte(m.activation)] + (seq![kind_byte(m.output_activation)] + (u16_le(m.input_size)
        + (u16_le(m.output_size) + (u64_le(m.learning_rate) + (u64_le(
        m.hidden_layers.len() as u64,
    ) + (enc_layers(m.hidden_layers) + enc_layer(m.output_layer)))))))
}

pub open spec fn dec_u64(s: Seq<u8>, p: int) -> Result<(u64, int), DecodeError> {
    if 0 <= p && p + 8 <= s.len() {
        Ok((le_u64_at(s, p), p + 8))
    } else {
        Err(DecodeError::Truncated)
    }
}

pub open spec fn dec_u16(s: Seq<u8>, p: int) -> Result<(u16, int), DecodeError> {
    if 0 <= p && p + 2 <= s.len() {
        Ok((le_u16_at(s, p), p + 2))
    } else {
        Err(DecodeError::Truncated)
    }
}

pub open spec fn dec_kind(s: Seq<u8>, p: int) -> Result<(ActivationType, int), DecodeError> {
    if 0 <= p && p < s.len() {
        if s[p] == 0 {
            Ok((ActivationType::Relu, p + 1))
        } else if s[p] == 1 {
            Ok((ActivationType::Sigmoid, p + 1))
        } else if s[p] == 2 {
            Ok((ActivationType::Tanh, p + 1))
        } else {
            Err(DecodeError::Invalid)
        }
    } else {
        Err(DecodeError::Truncated)
    }
}

pub open spec fn dec_scalars(s: Seq<u8>, p: int, cnt: int) -> Result<(Seq<u64>, int), DecodeError>
    decreases cnt,
{
    if cnt <= 0 {
        Ok((Seq::empty(), p))
    } else {
        match dec_u64(s, p) {
            Ok((x, p1)) => match dec_scalars(s, p1, cnt - 1) {
                Ok((rest, p2)) => Ok((seq![x] + rest, p2)),
                Err(e) => Err(e),
            },
            Err(e) => Err(e),
        }
    }
}

pub open spec fn dec_neuron(s: Seq<u8>, p: int) -> Result<(NeuronModel, int), DecodeError> {
    match dec_u64(s, p) {
        Ok((bias, p1)) => match dec_u64(s, p1) {
            Ok((sum, p2)) => match dec_u64(s, p2) {
                Ok((holded, p3)) => match dec_u64(s, p3) {
                    Ok((wlen, p4)) => match dec_scalars(s, p4, wlen as int) {
                        Ok((ws, p5)) => Ok((NeuronModel { holded, bias, sum, weights: ws }, p5)),
                        Err(e) => Err(e),
                    },
                    Err(e) => Err(e),
                },
                Err(e) => Err(e),
            },
            Err(e) => Err(e),
        },
        Err(e) => Err(e),
    }
}

pub open spec fn dec_neurons(s: Seq<u8>, p: int, cnt: int) -> Result<
    (Seq<NeuronModel>, int),
    DecodeError,
>
    decreases cnt,
{
    if cnt <= 0 {
        Ok((Seq::empty(), p))
    } else {
        match dec_neuron(s, p) {
            Ok((n, p1)) => match dec_neurons(s, p1, cnt - 1) {
                Ok((rest, p2)) => Ok((seq![n] + rest, p2)),
                Err(e) => Err(e),
            },
            Err(e) => Err(e),
        }
    }
}

pub open spec fn dec_layer(s: Seq<u8>, p: int) -> Result<(Seq<NeuronModel>, int), DecodeError> {
    match dec_u64(s, p) {
        Ok((cnt, p1)) => dec_neurons(s, p1, cnt as int),
        Err(e) => Err(e),
    }
}

pub open spec fn dec_layers(s: Seq<u8>, p: int, cnt: int) -> Result<
    (Seq<Seq<NeuronModel>>, int),
    DecodeError,
>
    decreases cnt,
{
    if cnt <= 0 {
        Ok((Seq::empty(), p))
    } else {
        match dec_layer(s, p) {
            Ok((l, p1)) => match dec_layers(s, p1, cnt - 1) {
                Ok((rest, p2)) => Ok((seq![l] + rest, p2)),
                Err(e) => Err(e),
            },
            Err(e) => Err(e),
        }
    }
}

/// What `NeuralNetwork::from_bytes` accepts and returns: the structural
/// decode of the whole blob, rejected unless it uses every byte and the
/// decoded network satisfies the shape invariant.
pub open spec fn dec_net(s: Seq<u8>) -> Result<NetModel, DecodeError> {
    match dec_kind(s, 0) {
        Ok((a, p1)) => match dec_kind(s, p1) {
            Ok((b, p2)) => match dec_u16(s, p2) {
                Ok((isz, p3)) => match dec_u16(s, p3) {
                    Ok((osz, p4)) => match dec_u64(s, p4) {
                        Ok((lr, p5)) => match dec_u64(s, p5) {
                            Ok((hcnt, p6)) => match dec_layers(s, p6, hcnt as int) {
                                Ok((hidden, p7)) => match dec_layer(s, p7) {
                                    Ok((out, p8)) => {
                                        let m = NetModel {
                                            activation: a,
                                            output_activation: b,
                                            hidden_layers: hidden,
                                            output_layer: out,
                                            learning_rate: lr,
                                            input_size: isz,
                                            output_size: osz,
                                        };
                                        if p8 == s.len() && wf_model(m) {
                                            Ok(m)
                                        } else {
                                            Err(DecodeError::Invalid)
                                        }
                                    },
                                    Err(e) => Err(e),
                                },
                                Err(e) => Err(e),
                            },
                            Err(e) => Err(e),
                        },
                        Err(e) => Err(e),
                    },
                    Err(e) => Err(e),
                },
                Err(e) => Err(e),
            },
            Err(e) => Err(e),
        },
        Err(e) => Err(e),
    }
}

proof fn lemma_enc_scalars_snoc(ws: Seq<u64>, x: u64)
    ensures
        enc_scalars(ws.push(x)) == enc_scalars(ws) + u64_le(x),
    decreases ws.len(),
{
    if ws.len() == 0 {
        assert(ws.push(x)[0] == x);
        assert(ws.push(x).skip(1) =~= ws);
        assert(enc_scalars(ws) =~= Seq::<u8>::empty());
        assert(enc_scalars(ws.push(x)) == u64_le(x) + enc_scalars(ws));
        assert(enc_scalars(ws.push(x)) =~= enc_scalars(ws) + u64_le(x));
    } else {
        assert(ws.push(x).skip(1) =~= ws.skip(1).push(x));
        lemma_enc_scalars_snoc(ws.skip(1), x);
        assert(ws.push(x)[0] == ws[0]);
        assert(enc_scalars(ws.push(x)) == u64_le(ws[0]) + (enc_scalars(ws.skip(1)) + u64_le(x)));
        assert(enc_scalars(ws) == u64_le(ws[0]) + enc_scalars(ws.skip(1)));
        assert(enc_scalars(ws.push(x)) =~= enc_scalars(ws) + u64_le(x));
    }
}

proof fn lemma_enc_neurons_snoc(l: Seq<NeuronModel>, n: NeuronModel)
    ensures
        enc_neurons(l.push(n)) == enc_neurons(l) + enc_neuron(n),
    decreases l.len(),
{
    if l.len() == 0 {
        assert(l.push(n)[0] == n);
        assert(l.push(n).skip(1) =~= l);
        assert(enc_neurons(l) =~= Seq::<u8>::empty());
        assert(enc_neurons(l.push(n)) == enc_neuron(n) + enc_neurons(l));
        assert(enc_neurons(l.push(n)) =~= enc_neurons(l) + enc_neuron(n));
    } else {
        assert(l.push(n).skip(1) =~= l.skip(1).push(n));
        lemma_enc_neurons_snoc(l.skip(1), n);
        assert(l.push(n)[0] == l[0]);
        assert(enc_neurons(l.push(n)) == enc_neuron(l[0]) + (enc_neurons(l.skip(1))
            + enc_neuron(n)));
        assert(enc_neurons(l) == enc_neuron(l[0]) + enc_neurons(l.skip(1)));
        assert(enc_neurons(l.push(n)) =~= enc_neurons(l) + enc_neuron(n));
    }
}

proof fn lemma_enc_layers_snoc(ls: Seq<Seq<NeuronModel>>, l: Seq<NeuronModel>)
    ensures
        enc_layers(ls.push(l)) == enc_layers(ls) + enc_layer(l),
    decreases ls.len(),
{
    if ls.len() == 0 {
        assert(ls.push(l)[0] == l);
        assert(ls.push(l).skip(1) =~= ls);
        assert(enc_layers(ls) =~= Seq::<u8>::empty());
        assert(enc_layers(ls.push(l)) == enc_layer(l) + enc_layers(ls));
        assert(enc_layers(ls.push(l)) =~= enc_layers(ls) + enc_layer(l));
    } else {
        assert(ls.push(l).skip(1) =~= ls.skip(1).push(l));
        lemma_enc_layers_snoc(ls.skip(1), l);
        assert(ls.push(l)[0] == ls[0]);
        assert(enc_layers(ls.push(l)) == enc_layer(ls[0]) + (enc_layers(ls.skip(1))
            + enc_layer(l)));
        assert(enc_layers(ls) == enc_layer(ls[0]) + enc_layers(ls.skip(1)));
        assert(enc_layers(ls.push(l)) =~= enc_layers(ls) + enc_layer(l));
    }
}

/// Splitting a concatenation out of a larger sequence.
proof fn lemma_split(s: Seq<u8>, p: int, a: Seq<u8>, b: Seq<u8>)
    requires
        0 <= p,
        p + a.len() + b.len() <= s.len(),
        s.subrange(p, p + a.len() + b.len()) == a + b,
    ensures
        s.subrange(p, p + a.len() as int) == a,
        s.subrange(p + a.len() as int, p + a.len() + b.len()) == b,
{
    assert forall|i: int| 0 <= i < a.len() implies s.subrange(p, p + a.len() as int)[i] == a[i] by {
        assert(s.subrange(p, p + a.len() + b.len())[i] == (a + b)[i]);
    }
    assert(s.subrange(p, p + a.len() as int) =~= a);
    assert forall|i: int|
        0 <= i < b.len() implies s.subrange(p + a.len() as int, p + a.len() + b.len())[i]
        == b[i] by {
        assert((a + b)[a.len() + i] == b[i]);
        assert(s.subrange(p, p + a.len() + b.len())[a.len() + i] == s[p + a.len() + i]);
        assert(s.subrange(p + a.len() as int, p + a.len() + b.len())[i] == s[p + a.len() + i]);
    }
    assert(s.subrange(p + a.len() as int, p + a.len() + b.len()) =~= b);
}

proof fn lemma_dec_u64_enc(s: Seq<u8>, p: int, x: u64)
    requires
        0 <= p,
        p + 8 <= s.len(),
        s.subrange(p, p + 8) == u64_le(x),
    ensures
        dec_u64(s, p) == Ok::<(u64, int), DecodeError>((x, p + 8)),
{
    let b0 = s[p];
    let b1 = s[p + 1];
    let b2 = s[p + 2];
    let b3 = s[p + 3];
    let b4 = s[p + 4];
    let b5 = s[p + 5];
    let b6 = s[p + 6];
    let b7 = s[p + 7];
    assert(b0 == (x >> (8 * 0)) as u8) by {
        assert(s.subrange(p, p + 8)[0] == u64_le(x)[0]);
    }
    assert(b1 == (x >> (8 * 1)) as u8) by {
        assert(s.subrange(p, p + 8)[1] == u64_le(x)[1]);
    }
    assert(b2 == (x >> (8 * 2)) as u8) by {
        assert(s.subrange(p, p + 8)[2] == u64_le(x)[2]);
    }
    assert(b3 == (x >> (8 * 3)) as u8) by {
        assert(s.subrange(p, p + 8)[3] == u64_le(x)[3]);
    }
    assert(b4 == (x >> (8 * 4)) as u8) by {
        assert(s.subrange(p, p + 8)[4] == u64_le(x)[4]);
    }
    assert(b5 == (x >> (8 * 5)) as u8) by {
        assert(s.subrange(p, p + 8)[5] == u64_le(x)[5]);
    }
    assert(b6 == (x >> (8 * 6)) as u8) by {
        assert(s.subrange(p, p + 8)[6] == u64_le(x)[6]);
    }
    assert(b7 == (x >> (8 * 7)) as u8) by {
        assert(s.subrange(p, p + 8)[7] == u64_le(x)[7]);
    }
    assert((b0 as u64) | ((b1 as u64) << 8) | ((b2 as u64) << 16) | ((b3 as u64) << 24) | ((
    b4 as u64) << 32) | ((b5 as u64) << 40) | ((b6 as u64) << 48) | ((b7 as u64) << 56) == x)
        by (bit_vector)
        requires
            b0 == (x >> 0) as u8,
            b1 == (x >> 8) as u8,
            b2 == (x >> 16) as u8,
            b3 == (x >> 24) as u8,
            b4 == (x >> 32) as u8,
            b5 == (x >> 40) as u8,
            b6 == (x >> 48) as u8,
            b7 == (x >> 56) as u8,
    ;
    assert(le_u64_at(s, p) == x);
}

proof fn lemma_dec_u16_enc(s: Seq<u8>, p: int, x: u16)
    requires
        0 <= p,
        p + 2 <= s.len(),
        s.subrange(p, p + 2) == u16_le(x),
    ensures
        dec_u16(s, p) == Ok::<(u16, int), DecodeError>((x, p + 2)),
{
    let b0 = s[p];
    let b1 = s[p + 1];
    assert(b0 == (x >> (8 * 0)) as u8) by {
        assert(s.subrange(p, p + 2)[0] == u16_le(x)[0]);
    }
    assert(b1 == (x >> (8 * 1)) as u8) by {
        assert(s.subrange(p, p + 2)[1] == u16_le(x)[1]);
    }
    assert((b0 as u16) | ((b1 as u16) << 8) == x) by (bit_vector)
        requires
            b0 == (x >> 0) as u8,
            b1 == (x >> 8) as u8,
    ;
    assert(le_u16_at(s, p) == x);
}

proof fn lemma_dec_kind_enc(s: Seq<u8>, p: int, k: ActivationType)
    requires
        0 <= p,
        p + 1 <= s.len(),
        s.subrange(p, p + 1) == seq![kind_byte(k)],
    ensures
        dec_kind(s, p) == Ok::<(ActivationType, int), DecodeError>((k, p + 1)),
{
    assert(s.subrange(p, p + 1)[0] == s[p]);
    assert(s[p] == kind_byte(k));
}

proof fn lemma_dec_scalars_enc(s: Seq<u8>, p: int, ws: Seq<u64>)
    requires
        0 <= p,
        p + enc_scalars(ws).len() <= s.len(),
        s.subrange(p, p + enc_scalars(ws).len() as int) == enc_scalars(ws),
    ensures
        dec_scalars(s, p, ws.len() as int) == Ok::<(Seq<u64>, int), DecodeError>(
            (ws, p + enc_scalars(ws).len()),
        ),
    decreases ws.len(),
{
    if ws.len() == 0 {
        assert(dec_scalars(s, p, 0) == Ok::<(Seq<u64>, int), DecodeError>((Seq::empty(), p)));
        assert(ws =~= Seq::<u64>::empty());
    } else {
        let head = u64_le(ws[0]);
        let tail = enc_scalars(ws.skip(1));
        assert(enc_scalars(ws) == head + tail);
        lemma_split(s, p, head, tail);
        lemma_dec_u64_enc(s, p, ws[0]);
        lemma_dec_scalars_enc(s, p + 8, ws.skip(1));
        assert(seq![ws[0]] + ws.skip(1) =~= ws);
    }
}

proof fn lemma_dec_neuron_enc(s: Seq<u8>, p: int, n: NeuronModel)
    requires
        0 <= p,
        p + enc_neuron(n).len() <= s.len(),
        s.subrange(p, p + enc_neuron(n).len() as int) == enc_neuron(n),
        n.weights.len() < 0x10000000000000000,
    ensures
        dec_neuron(s, p) == Ok::<(NeuronModel, int), DecodeError>((n, p + enc_neuron(n).len())),
{
    let wlen = n.weights.len() as u64;
    let r1 = u64_le(n.sum) + u64_le(n.holded) + u64_le(wlen) + enc_scalars(n.weights);
    assert(enc_neuron(n) =~= u64_le(n.bias) + r1);
    lemma_split(s, p, u64_le(n.bias), r1);
    lemma_dec_u64_enc(s, p, n.bias);

    let r2 = u64_le(n.holded) + u64_le(wlen) + enc_scalars(n.weights);
    assert(r1 =~= u64_le(n.sum) + r2);
    lemma_split(s, p + 8, u64_le(n.sum), r2);
    lemma_dec_u64_enc(s, p + 8, n.sum);

    let r3 = u64_le(wlen) + enc_scalars(n.weights);
    assert(r2 =~= u64_le(n.holded) + r3);
    lemma_split(s, p + 16, u64_le(n.holded), r3);
    lemma_dec_u64_enc(s, p + 16, n.holded);

    assert(r3 =~= u64_le(wlen) + enc_scalars(n.weights));
    lemma_split(s, p + 24, u64_le(wlen), enc_scalars(n.weights));
    lemma_dec_u64_enc(s, p + 24, wlen);

    lemma_dec_scalars_enc(s, p + 32, n.weights);
    assert(wlen as int == n.weights.len() as int);
    assert(NeuronModel { holded: n.holded, bias: n.bias, sum: n.sum, weights: n.weights } =~= n);
}

proof fn lemma_dec_neurons_enc(s: Seq<u8>, p: int, l: Seq<NeuronModel>)
    requires
        0 <= p,
        p + enc_neurons(l).len() <= s.len(),
        s.subrange(p, p + enc_neurons(l).len() as int) == enc_neurons(l),
        forall|q: int| 0 <= q < l.len() ==> (#[trigger] l[q]).weights.len() < 0x10000000000000000,
    ensures
        dec_neurons(s, p, l.len() as int) == Ok::<(Seq<NeuronModel>, int), DecodeError>(
            (l, p + enc_neurons(l).len()),
        ),
    decreases l.len(),
{
    if l.len() == 0 {
        assert(dec_neurons(s, p, 0) == Ok::<(Seq<NeuronModel>, int), DecodeError>(
            (Seq::empty(), p),
        ));
        assert(l =~= Seq::<NeuronModel>::empty());
    } else {
        let head = enc_neuron(l[0]);
        let tail = enc_neurons(l.skip(1));
        assert(enc_neurons(l) == head + tail);
        lemma_split(s, p, head, tail);
        lemma_dec_neuron_enc(s, p, l[0]);
        lemma_dec_neurons_enc(s, p + head.len(), l.skip(1));
        assert(seq![l[0]] + l.skip(1) =~= l);
    }
}

proof fn lemma_dec_layer_enc(s: Seq<u8>, p: int, l: Seq<NeuronModel>)
    requires
        0 <= p,
        p + enc_layer(l).len() <= s.len(),
        s.subrange(p, p + enc_layer(l).len() as int) == enc_layer(l),
        l.len() < 0x10000000000000000,
        forall|q: int| 0 <= q < l.len() ==> (#[trigger] l[q]).weights.len() < 0x10000000000000000,
    ensures
        dec_layer(s, p) == Ok::<(Seq<NeuronModel>, int), DecodeError>((l, p + enc_layer(l).len())),
{
    let cnt = l.len() as u64;
    assert(enc_layer(l) == u64_le(cnt) + enc_neurons(l));
    lemma_split(s, p, u64_le(cnt), enc_neurons(l));
    lemma_dec_u64_enc(s, p, cnt);
    lemma_dec_neurons_enc(s, p + 8, l);
    assert(cnt as int == l.len() as int);
}

proof fn lemma_dec_layers_enc(s: Seq<u8>, p: int, ls: Seq<Seq<NeuronModel>>)
    requires
        0 <= p,
        p + enc_layers(ls).len() <= s.len(),
        s.subrange(p, p + enc_layers(ls).len() as int) == enc_layers(ls),
        forall|k: int| 0 <= k < ls.len() ==> (#[trigger] ls[k]).len() < 0x10000000000000000,
        forall|k: int, q: int|
            0 <= k < ls.len() && 0 <= q < ls[k].len() ==> (#[trigger] ls[k][q]).weights.len()
                < 0x10000000000000000,
    ensures
        dec_layers(s, p, ls.len() as int) == Ok::<(Seq<Seq<NeuronModel>>, int), DecodeError>(
            (ls, p + enc_layers(ls).len()),
        ),
    decreases ls.len(),
{
    if ls.len() == 0 {
        assert(dec_layers(s, p, 0) == Ok::<(Seq<Seq<NeuronModel>>, int), DecodeError>(
            (Seq::empty(), p),
        ));
        assert(ls =~= Seq::<Seq<NeuronModel>>::empty());
    } else {
        let head = enc_layer(ls[0]);
        let tail = enc_layers(ls.skip(1));
        assert(enc_layers(ls) == head + tail);
        lemma_split(s, p, head, tail);
        lemma_dec_layer_enc(s, p, ls[0]);
        lemma_dec_layers_enc(s, p + head.len(), ls.skip(1));
        assert(seq![ls[0]] + ls.skip(1) =~= ls);
    }
}

/// Round trip of persistence: decoding what encoding wrote reproduces the
/// network — every parameter, scratch value, size and activation kind — so
/// `from_bytes(to_bytes(n))` returns a network observably identical to `n`.
#[verifier::rlimit(100)]
pub proof fn lemma_round_trip(m: NetModel)
    requires
        wf_model(m),
        m.hidden_layers.len() < 0x10000000000000000,
        layer_width(m) < 0x10000000000000000,
    ensures
        dec_net(spec_encode(m)) == Ok::<NetModel, DecodeError>(m),
{
    let s = spec_encode(m);
    let ka = seq![kind_byte(m.activation)];
    let kb = seq![kind_byte(m.output_activation)];
    let isz = u16_le(m.input_size);
    let osz = u16_le(m.output_size);
    let lr = u64_le(m.learning_rate);
    let hc = u64_le(m.hidden_layers.len() as u64);
    let hl = enc_layers(m.hidden_layers);
    let ol = enc_layer(m.output_layer);

    assert(s == ka + (kb + (isz + (osz + (lr + (hc + (hl + ol)))))));
    assert(s.subrange(0, s.len() as int) =~= s);

    lemma_split(s, 0, ka, kb + (isz + (osz + (lr + (hc + (hl + ol))))));
    lemma_dec_kind_enc(s, 0, m.activation);
    let p1 = 1;
    lemma_split(s, p1, kb, isz + (osz + (lr + (hc + (hl + ol)))));
    lemma_dec_kind_enc(s, p1, m.output_activation);
    let p2 = p1 + 1;
    lemma_split(s, p2, isz, osz + (lr + (hc + (hl + ol))));
    lemma_dec_u16_enc(s, p2, m.input_size);
    let p3 = p2 + 2;
    lemma_split(s, p3, osz, lr + (hc + (hl + ol)));
    lemma_dec_u16_enc(s, p3, m.output_size);
    let p4 = p3 + 2;
    lemma_split(s, p4, lr, hc + (hl + ol));
    lemma_dec_u64_enc(s, p4, m.learning_rate);
    let p5 = p4 + 8;
    lemma_split(s, p5, hc, hl + ol);
    lemma_dec_u64_enc(s, p5, m.hidden_layers.len() as u64);
    let p6 = p5 + 8;
    lemma_split(s, p6, hl, ol);
    assert forall|k: int|
        0 <= k < m.hidden_layers.len() implies (#[trigger] m.hidden_layers[k]).len()
        < 0x10000000000000000 by {
        assert(m.hidden_layers[k].len() == layer_width(m));
    }
    assert forall|k: int, q: int|
        0 <= k < m.hidden_layers.len() && 0 <= q < m.hidden_layers[k].len() implies (
    #[trigger] m.hidden_layers[k][q]).weights.len() < 0x10000000000000000 by {
        if k == 0 {
            assert(m.hidden_layers[0][q].weights.len() == m.input_size);
        } else {
            assert(m.hidden_layers[k][q].weights.len() == layer_width(m));
        }
    }
    lemma_dec_layers_enc(s, p6, m.hidden_layers);
    let p7 = p6 + hl.len();
    assert forall|q: int|
        0 <= q < m.output_layer.len() implies (#[trigger] m.output_layer[q]).weights.len()
        < 0x10000000000000000 by {
        assert(m.output_layer[q].weights.len() == layer_width(m));
    }
    lemma_dec_layer_enc(s, p7, m.output_layer);
    let p8 = p7 + ol.len();
    assert(p8 == s.len());
    assert((m.hidden_layers.len() as u64) as int == m.hidden_layers.len() as int);
    let built = NetModel {
        activation: m.activation,
        output_activation: m.output_activation,
        hidden_layers: m.hidden_layers,
        output_layer: m.output_layer,
        learning_rate: m.learning_rate,
        input_size: m.input_size,
        output_size: m.output_size,
    };
    assert(built =~= m);
}

fn kind_code(a: &Activation) -> (r: u8)
    ensures
        r == kind_byte(a.activation_type),
{
    match a.activation_type {
        ActivationType::Relu => 0,
        ActivationType::Sigmoid => 1,
        ActivationType::Tanh => 2,
    }
}

fn push_u64(out: &mut Vec<u8>, x: u64)
    ensures
        final(out)@ == old(out)@ + u64_le(x),
{
    out.push(x as u8);
    out.push((x >> 8) as u8);
    out.push((x >> 16) as u8);
    out.push((x >> 24) as u8);
    out.push((x >> 32) as u8);
    out.push((x >> 40) as u8);
    out.push((x >> 48) as u8);
    out.push((x >> 56) as u8);
    proof {
        assert(x as u8 == (x >> 0) as u8) by (bit_vector);
        assert(out@ =~= old(out)@ + u64_le(x));
    }
}

fn push_u16(out: &mut Vec<u8>, x: u16)
    ensures
        final(out)@ == old(out)@ + u16_le(x),
{
    out.push(x as u8);
    out.push((x >> 8) as u8);
    proof {
        assert(x as u8 == (x >> 0) as u8) by (bit_vector);
        assert(out@ =~= old(out)@ + u16_le(x));
    }
}

fn push_scalars(out: &mut Vec<u8>, ws: &Vec<u64>)
    ensures
        final(out)@ == old(out)@ + enc_scalars(ws@),
{
    let ghost base = out@;
    let mut i: usize = 0;
    while i < ws.len()
        invariant
            i <= ws@.len(),
            out@ == base + enc_scalars(ws@.take(i as int)),
        decreases ws@.len() - i,
    {
        push_u64(out, ws[i]);
        proof {
            lemma_enc_scalars_snoc(ws@.take(i as int), ws@[i as int]);
            assert(ws@.take(i as int).push(ws@[i as int]) =~= ws@.take(i + 1 as int));
            assert(out@ =~= base + enc_scalars(ws@.take(i + 1 as int)));
        }
        i = i + 1;
    }
    proof {
        assert(ws@.take(ws@.len() as int) =~= ws@);
    }
}

fn push_neuron(out: &mut Vec<u8>, n: &Neuron)
    ensures
        final(out)@ == old(out)@ + enc_neuron(n@),
{
    push_u64(out, n.bias);
    push_u64(out, n.sum);
    push_u64(out, n.holded);
    push_u64(out, n.weights.len() as u64);
    push_scalars(out, &n.weights);
    proof {
        assert(out@ =~= old(out)@ + enc_neuron(n@));
    }
}

fn push_layer(out: &mut Vec<u8>, l: &DenseLayer)
    ensures
        final(out)@ == old(out)@ + enc_layer(l@),
{
    let ghost base = out@;
    push_u64(out, l.neurons.len() as u64);
    let mut i: usize = 0;
    while i < l.neurons.len()
        invariant
            i <= l.neurons@.len(),
            out@ == base + u64_le(l@.len() as u64) + enc_neurons(l@.take(i as int)),
        decreases l.neurons@.len() - i,
    {
        proof {
            assert(l@[i as int] == l.neurons@[i as int]@);
        }
        push_neuron(out, &l.neurons[i]);
        proof {
            lemma_enc_neurons_snoc(l@.take(i as int), l@[i as int]);
            assert(l@.take(i as int).push(l@[i as int]) =~= l@.take(i + 1 as int));
            assert(out@ =~= base + u64_le(l@.len() as u64) + enc_neurons(l@.take(i + 1 as int)));
        }
        i = i + 1;
    }
    proof {
        assert(l@.take(l@.len() as int) =~= l@);
        assert(out@ =~= base + enc_layer(l@));
    }
}

fn take_u64(bytes: &Vec<u8>, pos: &mut usize) -> (r: Result<u64, DecodeError>)
    requires
        *old(pos) <= bytes@.len(),
    ensures
        match r {
            Ok(x) => dec_u64(bytes@, *old(pos) as int) == Ok::<(u64, int), DecodeError>(
                (x, *final(pos) as int),
            ) && *final(pos) <= bytes@.len(),
            Err(e) => dec_u64(bytes@, *old(pos) as int) == Err::<(u64, int), DecodeError>(e)
                && *final(pos) == *old(pos),
        },
{
    if bytes.len() - *pos >= 8 {
        let p: usize = *pos;
        let x: u64 = (bytes[p] as u64) | ((bytes[p + 1] as u64) << 8) | ((bytes[p + 2] as u64)
            << 16) | ((bytes[p + 3] as u64) << 24) | ((bytes[p + 4] as u64) << 32) | ((bytes[p
            + 5] as u64) << 40) | ((bytes[p + 6] as u64) << 48) | ((bytes[p + 7] as u64) << 56);
        *pos = p + 8;
        Ok(x)
    } else {
        Err(DecodeError::Truncated)
    }
}

fn take_u16(bytes: &Vec<u8>, pos: &mut usize) -> (r: Result<u16, DecodeError>)
    requires
        *old(pos) <= bytes@.len(),
    ensures
        match r {
            Ok(x) => dec_u16(bytes@, *old(pos) as int) == Ok::<(u16, int), DecodeError>(
                (x, *final(pos) as int),
            ) && *final(pos) <= bytes@.len(),
            Err(e) => dec_u16(bytes@, *old(pos) as int) == Err::<(u16, int), DecodeError>(e)
                && *final(pos) == *old(pos),
        },
{
    if bytes.len() - *pos >= 2 {
        let p: usize = *pos;
        let x: u16 = (bytes[p] as u16) | ((bytes[p + 1] as u16) << 8);
        *pos = p + 2;
        Ok(x)
    } else {
        Err(DecodeError::Truncated)
    }
}

fn take_kind(bytes: &Vec<u8>, pos: &mut usize) -> (r: Result<Activation, DecodeError>)
    requires
        *old(pos) <= bytes@.len(),
    ensures
        match r {
            Ok(a) => dec_kind(bytes@, *old(pos) as int) == Ok::<(ActivationType, int), DecodeError>(
                (a.activation_type, *final(pos) as int),
            ) && *final(pos) <= bytes@.len(),
            Err(e) => dec_kind(bytes@, *old(pos) as int) == Err::<
                (ActivationType, int),
                DecodeError,
            >(e) && *final(pos) == *old(pos),
        },
{
    if *pos < bytes.len() {
        let b: u8 = bytes[*pos];
        if b == 0 {
            *pos = *pos + 1;
            Ok(Activation { activation_type: ActivationType::Relu })
        } else if b == 1 {
            *pos = *pos + 1;
            Ok(Activation { activation_type: ActivationType::Sigmoid })
        } else if b == 2 {
            *pos = *pos + 1;
            Ok(Activation { activation_type: ActivationType::Tanh })
        } else {
            Err(DecodeError::Invalid)
        }
    } else {
        Err(DecodeError::Truncated)
    }
}

fn take_scalars(bytes: &Vec<u8>, pos: &mut usize, cnt: u64) -> (r: Result<Vec<u64>, DecodeError>)
    requires
        *old(pos) <= bytes@.len(),
    ensures
        match r {
            Ok(ws) => dec_scalars(bytes@, *old(pos) as int, cnt as int) == Ok::<
                (Seq<u64>, int),
                DecodeError,
            >((ws@, *final(pos) as int)) && *final(pos) <= bytes@.len(),
            Err(e) => dec_scalars(bytes@, *old(pos) as int, cnt as int) == Err::<
                (Seq<u64>, int),
                DecodeError,
            >(e),
        },
{
    let ghost p0 = *pos as int;
    let mut ws: Vec<u64> = Vec::new();
    let mut i: u64 = 0;
    while i < cnt
        invariant
            i <= cnt,
            *pos <= bytes@.len(),
            p0 == *old(pos) as int,
            match dec_scalars(bytes@, *pos as int, (cnt - i) as int) {
                Ok((rest, pend)) => dec_scalars(bytes@, p0, cnt as int) == Ok::<
                    (Seq<u64>, int),
                    DecodeError,
                >((ws@ + rest, pend)),
                Err(e) => dec_scalars(bytes@, p0, cnt as int) == Err::<(Seq<u64>, int), DecodeError>(
                    e,
                ),
            },
        decreases cnt - i,
    {
        let ghost pprev = *pos as int;
        let ghost wsold = ws@;
        match take_u64(bytes, pos) {
            Ok(x) => {
                ws.push(x);
                i = i + 1;
                proof {
                    match dec_scalars(bytes@, *pos as int, (cnt - i) as int) {
                        Ok((rest, pend)) => {
                            assert(wsold + (seq![x] + rest) =~= ws@ + rest);
                        },
                        Err(e) => {},
                    }
                }
            },
            Err(e) => {
                proof {
                    assert(dec_scalars(bytes@, pprev, (cnt - i) as int) == Err::<
                        (Seq<u64>, int),
                        DecodeError,
                    >(e));
                }
                return Err(e);
            },
        }
    }
    proof {
        assert(ws@ + Seq::<u64>::empty() =~= ws@);
    }
    Ok(ws)
}

fn take_neuron(bytes: &Vec<u8>, pos: &mut usize) -> (r: Result<Neuron, DecodeError>)
    requires
        *old(pos) <= bytes@.len(),
    ensures
        match r {
            Ok(n) => dec_neuron(bytes@, *old(pos) as int) == Ok::<(NeuronModel, int), DecodeError>(
                (n@, *final(pos) as int),
            ) && *final(pos) <= bytes@.len(),
            Err(e) => dec_neuron(bytes@, *old(pos) as int) == Err::<
                (NeuronModel, int),
                DecodeError,
            >(e),
        },
{
    let bias: u64 = match take_u64(bytes, pos) {
        Ok(x) => x,
        Err(e) => {
            return Err(e);
        },
    };
    let sum: u64 = match take_u64(bytes, pos) {
        Ok(x) => x,
        Err(e) => {
            return Err(e);
        },
    };
    let holded: u64 = match take_u64(bytes, pos) {
        Ok(x) => x,
        Err(e) => {
            return Err(e);
        },
    };
    let wlen: u64 = match take_u64(bytes, pos) {
        Ok(x) => x,
        Err(e) => {
            return Err(e);
        },
    };
    let weights: Vec<u64> = match take_scalars(bytes, pos, wlen) {
        Ok(w) => w,
        Err(e) => {
            return Err(e);
        },
    };
    Ok(Neuron { holded, bias, sum, weights })
}

fn take_layer(bytes: &Vec<u8>, pos: &mut usize) -> (r: Result<DenseLayer, DecodeError>)
    requires
        *old(pos) <= bytes@.len(),
    ensures
        match r {
            Ok(l) => dec_layer(bytes@, *old(pos) as int) == Ok::<
                (Seq<NeuronModel>, int),
                DecodeError,
            >((l@, *final(pos) as int)) && *final(pos) <= bytes@.len(),
            Err(e) => dec_layer(bytes@, *old(pos) as int) == Err::<
                (Seq<NeuronModel>, int),
                DecodeError,
            >(e),
        },
{
    let ghost pstart = *pos as int;
    let cnt: u64 = match take_u64(bytes, pos) {
        Ok(x) => x,
        Err(e) => {
            return Err(e);
        },
    };
    let ghost p0 = *pos as int;
    let mut neurons: Vec<Neuron> = Vec::new();
    let mut i: u64 = 0;
    while i < cnt
        invariant
            i <= cnt,
            *pos <= bytes@.len(),
            pstart == *old(pos) as int,
            dec_u64(bytes@, pstart) == Ok::<(u64, int), DecodeError>((cnt, p0)),
            match dec_neurons(bytes@, *pos as int, (cnt - i) as int) {
                Ok((rest, pend)) => dec_neurons(bytes@, p0, cnt as int) == Ok::<
                    (Seq<NeuronModel>, int),
                    DecodeError,
                >((neurons@.map_values(|n: Neuron| n@) + rest, pend)),
                Err(e) => dec_neurons(bytes@, p0, cnt as int) == Err::<
                    (Seq<NeuronModel>, int),
                    DecodeError,
                >(e),
            },
        decreases cnt - i,
    {
        let ghost nsold = neurons@.map_values(|n: Neuron| n@);
        let ghost pprev = *pos as int;
        match take_neuron(bytes, pos) {
            Ok(n) => {
                neurons.push(n);
                i = i + 1;
                proof {
                    assert(neurons@.map_values(|n: Neuron| n@) =~= nsold.push(neurons@.last()@));
                    match dec_neurons(bytes@, *pos as int, (cnt - i) as int) {
                        Ok((rest, pend)) => {
                            assert(nsold + (seq![neurons@.last()@] + rest) =~= neurons@.map_values(
                                |n: Neuron| n@,
                            ) + rest);
                        },
                        Err(e) => {},
                    }
                }
            },
            Err(e) => {
                proof {
                    assert(dec_neurons(bytes@, pprev, (cnt - i) as int) == Err::<
                        (Seq<NeuronModel>, int),
                        DecodeError,
                    >(e));
                }
                return Err(e);
            },
        }
    }
    let r = DenseLayer { neurons };
    proof {
        assert(r@ == r.neurons@.map_values(|n: Neuron| n@));
        assert(r@ + Seq::<NeuronModel>::empty() =~= r@);
    }
    Ok(r)
}

impl NeuralNetwork {
    /// The network serialized as one self-describing binary blob. Every field
    /// round-trips exactly; the caller owns writing the bytes wherever they
    /// should go.
    pub fn to_bytes(&self) -> (r: Vec<u8>)
        ensures
            r@ == spec_encode(self@),
    {
        let mut out: Vec<u8> = Vec::new();
        let ka = kind_code(&self.activation);
        out.push(ka);
        let kb = kind_code(&self.output_activation);
        out.push(kb);
        push_u16(&mut out, self.input_size);
        push_u16(&mut out, self.output_size);
        push_u64(&mut out, self.learning_rate);
        push_u64(&mut out, self.hidden_layers.len() as u64);
        let ghost header = out@;

        let mut k: usize = 0;
        while k < self.hidden_layers.len()
            invariant
                k <= self.hidden_layers@.len(),
                out@ == header + enc_layers(self@.hidden_layers.take(k as int)),
            decreases self.hidden_layers@.len() - k,
        {
            proof {
                assert(self@.hidden_layers[k as int] == self.hidden_layers@[k as int]@);
            }
            push_layer(&mut out, &self.hidden_layers[k]);
            proof {
                lemma_enc_layers_snoc(
                    self@.hidden_layers.take(k as int),
                    self@.hidden_layers[k as int],
                );
                assert(self@.hidden_layers.take(k as int).push(self@.hidden_layers[k as int])
                    =~= self@.hidden_layers.take(k + 1 as int));
                assert(out@ =~= header + enc_layers(self@.hidden_layers.take(k + 1 as int)));
            }
            k = k + 1;
        }

        push_layer(&mut out, &self.output_layer);
        proof {
            assert(self@.hidden_layers.take(self@.hidden_layers.len() as int)
                =~= self@.hidden_layers);
            assert(out@ =~= spec_encode(self@));
        }
        out
    }

    /// The network a blob written by `to_bytes` describes. Rejected with
    /// `Truncated` when the bytes end before a field is complete, and with
    /// `Invalid` when an activation tag byte is unknown, when bytes trail the
    /// encoded network, or when the decoded shapes break the network
    /// invariant; exactly as `dec_net` says.
    pub fn from_bytes(bytes: &Vec<u8>) -> (r: Result<NeuralNetwork, DecodeError>)
        ensures
            match r {
                Ok(n) => dec_net(bytes@) == Ok::<NetModel, DecodeError>(n@) && wf_model(n@),
                Err(e) => dec_net(bytes@) == Err::<NetModel, DecodeError>(e),
            },
    {
        let mut pos: usize = 0;
        let activation: Activation = match take_kind(bytes, &mut pos) {
            Ok(a) => a,
            Err(e) => {
                return Err(e);
            },
        };
        let ghost p1 = pos as int;
        let output_activation: Activation = match take_kind(bytes, &mut pos) {
            Ok(a) => a,
            Err(e) => {
                return Err(e);
            },
        };
        let ghost p2 = pos as int;
        let input_size: u16 = match take_u16(bytes, &mut pos) {
            Ok(x) => x,
            Err(e) => {
                return Err(e);
            },
        };
        let ghost p3 = pos as int;
        let output_size: u16 = match take_u16(bytes, &mut pos) {
            Ok(x) => x,
            Err(e) => {
                return Err(e);
            },
        };
        let ghost p4 = pos as int;
        let learning_rate: u64 = match take_u64(bytes, &mut pos) {
            Ok(x) => x,
            Err(e) => {
                return Err(e);
            },
        };
        let ghost p5 = pos as int;
        let hcnt: u64 = match take_u64(bytes, &mut pos) {
            Ok(x) => x,
            Err(e) => {
                return Err(e);
            },
        };
        let ghost p6 = pos as int;

        let mut hidden_layers: Vec<DenseLayer> = Vec::new();
        let mut i: u64 = 0;
        while i < hcnt
            invariant
                i <= hcnt,
                pos <= bytes@.len(),
                dec_kind(bytes@, 0) == Ok::<(ActivationType, int), DecodeError>(
                    (activation.activation_type, p1),
                ),
                dec_kind(bytes@, p1) == Ok::<(ActivationType, int), DecodeError>(
                    (output_activation.activation_type, p2),
                ),
                dec_u16(bytes@, p2) == Ok::<(u16, int), DecodeError>((input_size, p3)),
                dec_u16(bytes@, p3) == Ok::<(u16, int), DecodeError>((output_size, p4)),
                dec_u64(bytes@, p4) == Ok::<(u64, int), DecodeError>((learning_rate, p5)),
                dec_u64(bytes@, p5) == Ok::<(u64, int), DecodeError>((hcnt, p6)),
                match dec_layers(bytes@, pos as int, (hcnt - i) as int) {
                    Ok((rest, pend)) => dec_layers(bytes@, p6, hcnt as int) == Ok::<
                        (Seq<Seq<NeuronModel>>, int),
                        DecodeError,
                    >((hidden_layers@.map_values(|l: DenseLayer| l@) + rest, pend)),
                    Err(e) => dec_layers(bytes@, p6, hcnt as int) == Err::<
                        (Seq<Seq<NeuronModel>>, int),
                        DecodeError,
                    >(e),
                },
            decreases hcnt - i,
        {
            let ghost lsold = hidden_layers@.map_values(|l: DenseLayer| l@);
            let ghost pprev = pos as int;
            match take_layer(bytes, &mut pos) {
                Ok(l) => {
                    hidden_layers.push(l);
                    i = i + 1;
                    proof {
                        assert(hidden_layers@.map_values(|l: DenseLayer| l@) =~= lsold.push(
                            hidden_layers@.last()@,
                        ));
                        match dec_layers(bytes@, pos as int, (hcnt - i) as int) {
                            Ok((rest, pend)) => {
                                assert(lsold + (seq![hidden_layers@.last()@] + rest)
                                    =~= hidden_layers@.map_values(|l: DenseLayer| l@) + rest);
                            },
                            Err(e) => {},
                        }
                    }
                },
                Err(e) => {
                    proof {
                        assert(dec_layers(bytes@, pprev, (hcnt - i) as int) == Err::<
                            (Seq<Seq<NeuronModel>>, int),
                            DecodeError,
                        >(e));
                    }
                    return Err(e);
                },
            }
        }
        proof {
            assert(hidden_layers@.map_values(|l: DenseLayer| l@) + Seq::<Seq<NeuronModel>>::empty()
                =~= hidden_layers@.map_values(|l: DenseLayer| l@));
        }
        let ghost p7 = pos as int;

        let output_layer: DenseLayer = match take_layer(bytes, &mut pos) {
            Ok(l) => l,
            Err(e) => {
                return Err(e);
            },
        };
        let ghost p8 = pos as int;

        let net = NeuralNetwork {
            activation,
            output_activation,
            hidden_layers,
            output_layer,
            learning_rate,
            input_size,
            output_size,
        };
        if pos == bytes.len() {
            if net.is_wf() {
                proof {
                    assert(dec_net(bytes@) == Ok::<NetModel, DecodeError>(net@));
                }
                Ok(net)
            } else {
                Err(DecodeError::Invalid)
            }
        } else {
            Err(DecodeError::Invalid)
        }
    }
}

} // verus!
