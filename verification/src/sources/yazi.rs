use vstd::prelude::*;
use crate::model::{raw_section_view, RawSections, SectionView, Tab};

verus! {
/// No ~/.config/yazi/keymap.toml override — defaults are compiled into the
/// binary. Static table from yazi's documented default keymap.
pub open spec fn yazi_keys() -> Seq<SectionView> {
    seq![
        ("Navegação"@, seq![
            ("j / k"@, "Baixo / cima"@),
            ("h / l"@, "Sair / entrar no diretório"@),
            ("g g / G"@, "Topo / fim da lista"@),
            ("Ctrl+u / Ctrl+d"@, "Meia página cima / baixo"@),
            ("Tab"@, "Alternar entre painéis"@),
            ("Enter"@, "Abrir arquivo / entrar em diretório"@),
        ]),
        ("Seleção"@, seq![
            ("space"@, "Selecionar/deselecionar item"@),
            ("v"@, "Modo visual (seleção)"@),
            ("V"@, "Modo visual (deseleção)"@),
            ("Ctrl+a"@, "Selecionar tudo"@),
            ("Ctrl+r"@, "Inverter seleção"@),
            ("Esc"@, "Cancelar seleção / modo visual"@),
        ]),
        ("Arquivos"@, seq![
            ("y"@, "Copiar (yank)"@),
            ("x"@, "Recortar (cut)"@),
            ("p"@, "Colar"@),
            ("P"@, "Colar sem sobrescrever"@),
            ("d"@, "Mover pra lixeira"@),
            ("D"@, "Deletar permanentemente"@),
            ("a"@, "Criar arquivo/pasta"@),
            ("r"@, "Renomear"@),
            (":"@, "Criar (shell command)"@),
        ]),
        ("Busca e navegação rápida"@, seq![
            ("/"@, "Buscar (fzf-like filter)"@),
            ("f"@, "Find (busca incremental)"@),
            ("z"@, "Zoxide jump"@),
            ("Z"@, "Fzf jump"@),
            ("`"@, "Ir para diretório (goto)"@),
            ("[ / ]"@, "Pular pro dir anterior / próximo no histórico"@),
        ]),
        ("Misc"@, seq![
            ("~"@, "Abrir help (lista completa de shortcuts)"@),
            ("s"@, "Shell (comando no diretório atual)"@),
            ("."@, "Toggle mostrar ocultos"@),
            ("T"@, "Toggle preview de tab"@),
            ("q"@, "Sair"@),
        ]),
    ]
}

/// The table as static data.
fn table() -> (r: RawSections<'static>)
    ensures
        r@.map_values(|s: (&str, &[(&str, &str)])| raw_section_view(s)) == yazi_keys(),
{
    let r: RawSections<'static> = &[
        (
            "Navegação",
            &[
                ("j / k", "Baixo / cima"),
                ("h / l", "Sair / entrar no diretório"),
                ("g g / G", "Topo / fim da lista"),
                ("Ctrl+u / Ctrl+d", "Meia página cima / baixo"),
                ("Tab", "Alternar entre painéis"),
                ("Enter", "Abrir arquivo / entrar em diretório"),
            ],
        ),
        (
            "Seleção",
            &[
                ("space", "Selecionar/deselecionar item"),
                ("v", "Modo visual (seleção)"),
                ("V", "Modo visual (deseleção)"),
                ("Ctrl+a", "Selecionar tudo"),
                ("Ctrl+r", "Inverter seleção"),
                ("Esc", "Cancelar seleção / modo visual"),
            ],
        ),
        (
            "Arquivos",
            &[
                ("y", "Copiar (yank)"),
                ("x", "Recortar (cut)"),
                ("p", "Colar"),
                ("P", "Colar sem sobrescrever"),
                ("d", "Mover pra lixeira"),
                ("D", "Deletar permanentemente"),
                ("a", "Criar arquivo/pasta"),
                ("r", "Renomear"),
                (":", "Criar (shell command)"),
            ],
        ),
        (
            "Busca e navegação rápida",
            &[
                ("/", "Buscar (fzf-like filter)"),
                ("f", "Find (busca incremental)"),
                ("z", "Zoxide jump"),
                ("Z", "Fzf jump"),
                ("`", "Ir para diretório (goto)"),
                ("[ / ]", "Pular pro dir anterior / próximo no histórico"),
            ],
        ),
        (
            "Misc",
            &[
                ("~", "Abrir help (lista completa de shortcuts)"),
                ("s", "Shell (comando no diretório atual)"),
                (".", "Toggle mostrar ocultos"),
                ("T", "Toggle preview de tab"),
                ("q", "Sair"),
            ],
        ),
    ];
    assert(raw_section_view(r@[0]) =~= yazi_keys()[0]);
    assert(raw_section_view(r@[1]) =~= yazi_keys()[1]);
    assert(raw_section_view(r@[2]) =~= yazi_keys()[2]);
    assert(raw_section_view(r@[3]) =~= yazi_keys()[3]);
    assert(raw_section_view(r@[4]) =~= yazi_keys()[4]);
    assert(r@.map_values(|s: (&str, &[(&str, &str)])| raw_section_view(s)) =~= yazi_keys());
    r
}

/// The Yazi tab.
pub fn load() -> (t: Tab)
    ensures
        t.app@ == "Yazi"@,
        t.window_class@.len() == 1,
        t.window_class@[0]@ == "yazi"@,
        t.aliases@.len() == 0,
        t.sections_view() == yazi_keys(),
{
    Tab::from_raw("Yazi", &["yazi"], &[], table())
}

} // verus!
