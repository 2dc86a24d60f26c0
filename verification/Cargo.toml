[package]
name = "tg_rcore"
version = "0.1.0"
edition = "2021"
publish = false

[dependencies]
spin = "*"
riscv = "*"
xmas-elf = "*"
virtio-drivers = "*"
tg-easy-fs = "=0.4.2-preview.1"
tg-task-manage = "=0.4.2-preview.1"
tg-kernel-vm = "=0.4.2-preview.1"
tg-syscall = "=0.4.2-preview.1"
tg-sync = "=0.4.2-preview.1"
tg-signal = "=0.4.2-preview.1"
tg-signal-impl = "=0.4.2-preview.1"
tg-kernel-context = "=0.4.2-preview.1"
tg-console = "=0.4.2-preview.1"
tg-sbi = "=0.4.2-preview.1"
tg-linker = "=0.4.2-preview.1"
tg-kernel-alloc = "=0.4.2-preview.1"
