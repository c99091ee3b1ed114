//! What is released when a shard goes away, in order.

use vstd::prelude::*;

use crate::vulkan::estado::{
    Ativacoes, Buf, DnBufs, LayerAux, LayerQ, MixerQ, MtpBufs, ResidentState,
};

verus! {

/// The buffer, if there is one.
pub open spec fn talvez(b: Option<Buf>) -> Seq<Buf> {
    match b {
        Some(x) => seq![x],
        None => Seq::empty(),
    }
}

pub open spec fn pesos_de(q: LayerQ) -> Seq<Buf> {
    (match q.mixer {
        MixerQ::Attn { attn_q, attn_k, attn_v, attn_output } => seq![
            attn_q.gpu,
            attn_k.gpu,
            attn_v.gpu,
            attn_output.gpu,
        ],
        MixerQ::Delta { attn_qkv, attn_gate, ssm_out } => seq![
            attn_qkv.gpu,
            attn_gate.gpu,
            ssm_out.gpu,
        ],
    }) + seq![q.ffn_gate.gpu, q.ffn_up.gpu, q.ffn_down.gpu]
}

pub open spec fn pesos_das_camadas(q: Seq<LayerQ>) -> Seq<Buf>
    decreases q.len(),
{
    if q.len() == 0 {
        Seq::empty()
    } else {
        pesos_das_camadas(q.drop_last()) + pesos_de(q.last())
    }
}

pub open spec fn snapshot_de(s: Seq<(Buf, Buf)>) -> Seq<Buf>
    decreases s.len(),
{
    if s.len() == 0 {
        Seq::empty()
    } else {
        snapshot_de(s.drop_last()) + seq![s.last().0, s.last().1]
    }
}

pub open spec fn auxiliares_de(x: LayerAux) -> Seq<Buf> {
    seq![x.attn_norm, x.ffn_norm] + talvez(x.q_norm) + talvez(x.k_norm) + (match x.delta {
        Some(d) => seq![d.conv1d, d.adt, d.alpha, d.beta, d.norm, d.estado, d.janela]
            + d.estado_snap@ + d.janela_snap@,
        None => Seq::empty(),
    }) + talvez(x.q_bias) + talvez(x.k_bias) + talvez(x.v_bias)
}

pub open spec fn auxiliares_das_camadas(x: Seq<LayerAux>) -> Seq<Buf>
    decreases x.len(),
{
    if x.len() == 0 {
        Seq::empty()
    } else {
        auxiliares_das_camadas(x.drop_last()) + auxiliares_de(x.last())
    }
}

/// The activations of the linear attention.
pub open spec fn lineares_de(d: DnBufs) -> Seq<Buf> {
    seq![d.qkv, d.conv, d.z, d.gb, d.qn, d.kn, d.out, d.normed, d.xq, d.xd]
}

pub open spec fn ativacoes_de(a: Ativacoes) -> Seq<Buf> {
    seq![
        a.embd_stage,
        a.kcache,
        a.vcache,
        a.b_x,
        a.b_q,
        a.b_k,
        a.b_v,
        a.b_proj,
        a.b_gate,
        a.b_up,
        a.b_logits,
        a.b_ffn,
        a.b_xq,
        a.b_xd,
        a.logits_host,
        a.b_normed,
        a.b_parciais,
        a.b_attn,
        a.b_attn_split,
        a.b_act,
    ] + (match a.dn {
        Some(d) => lineares_de(d),
        None => Seq::empty(),
    })
}

pub open spec fn mtp_de(m: MtpBufs) -> Seq<Buf> {
    seq![
        m.eh_proj.gpu,
        m.attn_q.gpu,
        m.attn_k.gpu,
        m.attn_v.gpu,
        m.attn_output.gpu,
        m.ffn_gate.gpu,
        m.ffn_up.gpu,
        m.ffn_down.gpu,
        m.enorm,
        m.hnorm,
        m.shared_head_norm,
        m.attn_norm,
        m.ffn_norm,
        m.emb_stage,
        m.b_emb,
        m.b_h,
        m.b_eh,
        m.b_x,
        m.b_ffn,
        m.kcache,
        m.vcache,
    ] + talvez(m.q_norm) + talvez(m.k_norm)
}

/// The buffers that are released with a shard: all that it has.
pub open spec fn liberados(st: ResidentState, snap: Seq<(Buf, Buf)>) -> Seq<Buf> {
    pesos_das_camadas(st.qw@) + seq![st.output_w.gpu] + snapshot_de(snap)
        + auxiliares_das_camadas(st.aux@) + seq![st.output_norm_buf, st.freq_buf] + ativacoes_de(
        st.a,
    ) + (match st.mtp {
        Some(m) => mtp_de(m),
        None => Seq::empty(),
    })
}

fn junta(v: &mut Vec<Buf>, mut w: Vec<Buf>)
    ensures
        final(v)@ == old(v)@ + w@,
{
    v.append(&mut w);
}

fn poe_talvez(v: &mut Vec<Buf>, b: &Option<Buf>)
    ensures
        final(v)@ == old(v)@ + talvez(*b),
{
    if let Some(x) = b {
        v.push(*x);
    }
    assert(v@ =~= old(v)@ + talvez(*b));
}

fn poe_todos(v: &mut Vec<Buf>, w: &Vec<Buf>)
    ensures
        final(v)@ == old(v)@ + w@,
{
    let ghost v0 = v@;
    let mut i: usize = 0;
    assert(v@ =~= v0 + w@.take(0));
    while i < w.len()
        invariant
            i <= w.len(),
            v@ == v0 + w@.take(i as int),
        decreases w.len() - i,
    {
        v.push(w[i]);
        i += 1;
        assert(v@ =~= v0 + w@.take(i as int));
    }
    assert(w@.take(i as int) =~= w@);
}

fn poe_pesos(v: &mut Vec<Buf>, qw: &Vec<LayerQ>)
    ensures
        final(v)@ == old(v)@ + pesos_das_camadas(qw@),
{
    let ghost v0 = v@;
    let mut i: usize = 0;
    proof {
        assert(qw@.take(0) =~= Seq::<LayerQ>::empty());
        assert(v@ =~= v0 + pesos_das_camadas(qw@.take(0)));
    }
    while i < qw.len()
        invariant
            i <= qw.len(),
            v@ == v0 + pesos_das_camadas(qw@.take(i as int)),
        decreases qw.len() - i,
    {
        let q = &qw[i];
        match &q.mixer {
            MixerQ::Attn { attn_q, attn_k, attn_v, attn_output } => {
                junta(v, vec![attn_q.gpu, attn_k.gpu, attn_v.gpu, attn_output.gpu]);
            },
            MixerQ::Delta { attn_qkv, attn_gate, ssm_out } => {
                junta(v, vec![attn_qkv.gpu, attn_gate.gpu, ssm_out.gpu]);
            },
        }
        junta(v, vec![q.ffn_gate.gpu, q.ffn_up.gpu, q.ffn_down.gpu]);
        proof {
            assert(qw@.take(i + 1).drop_last() =~= qw@.take(i as int));
            assert(qw@.take(i + 1).last() == *q);
            assert(v@ =~= v0 + pesos_das_camadas(qw@.take(i + 1)));
        }
        i += 1;
    }
    assert(qw@.take(i as int) =~= qw@);
}

fn poe_auxiliares(v: &mut Vec<Buf>, x: &LayerAux)
    ensures
        final(v)@ == old(v)@ + auxiliares_de(*x),
{
    let ghost v0 = v@;
    junta(v, vec![x.attn_norm, x.ffn_norm]);
    poe_talvez(v, &x.q_norm);
    poe_talvez(v, &x.k_norm);
    if let Some(d) = &x.delta {
        junta(v, vec![d.conv1d, d.adt, d.alpha, d.beta, d.norm, d.estado, d.janela]);
        poe_todos(v, &d.estado_snap);
        poe_todos(v, &d.janela_snap);
    }
    poe_talvez(v, &x.q_bias);
    poe_talvez(v, &x.k_bias);
    poe_talvez(v, &x.v_bias);
    assert(v@ =~= v0 + auxiliares_de(*x));
}

/// The buffers to release with a shard, in order; `snap` are those of its
/// snapshot.
pub fn a_liberar(st: &ResidentState, snap: &Vec<(Buf, Buf)>) -> (r: Vec<Buf>)
    ensures
        r@ == liberados(*st, snap@),
{
    let mut v: Vec<Buf> = Vec::new();
    poe_pesos(&mut v, &st.qw);
    v.push(st.output_w.gpu);
    let ghost v1 = v@;
    let mut i: usize = 0;
    proof {
        assert(snap@.take(0) =~= Seq::<(Buf, Buf)>::empty());
        assert(v@ =~= v1 + snapshot_de(snap@.take(0)));
    }
    while i < snap.len()
        invariant
            i <= snap.len(),
            v@ == v1 + snapshot_de(snap@.take(i as int)),
        decreases snap.len() - i,
    {
        v.push(snap[i].0);
        v.push(snap[i].1);
        proof {
            assert(snap@.take(i + 1).drop_last() =~= snap@.take(i as int));
            assert(v@ =~= v1 + snapshot_de(snap@.take(i + 1)));
        }
        i += 1;
    }
    proof {
        assert(snap@.take(i as int) =~= snap@);
    }
    let ghost v2 = v@;
    let mut l: usize = 0;
    proof {
        assert(st.aux@.take(0) =~= Seq::<LayerAux>::empty());
        assert(v@ =~= v2 + auxiliares_das_camadas(st.aux@.take(0)));
    }
    while l < st.aux.len()
        invariant
            l <= st.aux.len(),
            v@ == v2 + auxiliares_das_camadas(st.aux@.take(l as int)),
        decreases st.aux.len() - l,
    {
        poe_auxiliares(&mut v, &st.aux[l]);
        proof {
            assert(st.aux@.take(l + 1).drop_last() =~= st.aux@.take(l as int));
            assert(v@ =~= v2 + auxiliares_das_camadas(st.aux@.take(l + 1)));
        }
        l += 1;
    }
    proof {
        assert(st.aux@.take(l as int) =~= st.aux@);
    }
    let a = &st.a;
    junta(&mut v, vec![st.output_norm_buf, st.freq_buf]);
    junta(
        &mut v,
        vec![
            a.embd_stage,
            a.kcache,
            a.vcache,
            a.b_x,
            a.b_q,
            a.b_k,
            a.b_v,
            a.b_proj,
            a.b_gate,
            a.b_up,
            a.b_logits,
            a.b_ffn,
            a.b_xq,
            a.b_xd,
            a.logits_host,
            a.b_normed,
            a.b_parciais,
            a.b_attn,
            a.b_attn_split,
            a.b_act,
        ],
    );
    if let Some(d) = &a.dn {
        junta(&mut v, vec![d.qkv, d.conv, d.z, d.gb, d.qn, d.kn, d.out, d.normed, d.xq, d.xd]);
    }
    if let Some(m) = &st.mtp {
        junta(
            &mut v,
            vec![
                m.eh_proj.gpu,
                m.attn_q.gpu,
                m.attn_k.gpu,
                m.attn_v.gpu,
                m.attn_output.gpu,
                m.ffn_gate.gpu,
                m.ffn_up.gpu,
                m.ffn_down.gpu,
                m.enorm,
                m.hnorm,
                m.shared_head_norm,
                m.attn_norm,
                m.ffn_norm,
                m.emb_stage,
                m.b_emb,
                m.b_h,
                m.b_eh,
                m.b_x,
                m.b_ffn,
                m.kcache,
                m.vcache,
            ],
        );
        poe_talvez(&mut v, &m.q_norm);
        poe_talvez(&mut v, &m.k_norm);
    }
    assert(v@ =~= liberados(*st, snap@));
    v
}

} // verus!
