.mavlink-services {
    display: grid;
    gap: 1.5rem;
    margin-bottom: 2rem;
}

.service-card {
    background: var(--bg-elevated);
    border: 1px solid var(--border);
    border-radius: 8px;
    padding: 1.5rem;
}

.service-status {
    display: flex;
    align-items: center;
    gap: 0.75rem;
    padding: 1rem;
    margin: 1rem 0;
    background: var(--bg-base);
    border-radius: 6px;
    font-family: var(--font-mono);
    font-size: 0.875rem;
}

.service-status-indicator {
    font-size: 1.5rem;
    line-height: 1;
}

.service-status--active .service-status-indicator {
    color: var(--status-ok);
}

.service-status--inactive .service-status-indicator {
    color: var(--text-muted);
}

.service-status-text {
    flex: 1;
    color: var(--text-secondary);
}

.service-actions {
    display: flex;
    flex-direction: column;
    gap: 0.75rem;
}

.service-actions-group {
    display: flex;
    gap: 0.75rem;
    flex-wrap: wrap;
}

.service-actions button {
    padding: 0.5rem 1rem;
    font-size: 0.875rem;
    border-radius: 4px;
    border: none;
    cursor: pointer;
    font-weight: 600;
    transition: all 0.15s ease;
}

.service-actions button:disabled {
    opacity: 0.5;
    cursor: not-allowed;
}

.btn-primary {
    background: var(--accent-primary);
    color: white;
}

.btn-primary:hover:not(:disabled) {
    background: var(--accent-primary-hover);
}

.btn-secondary {
    background: var(--bg-base);
    color: var(--text-primary);
    border: 1px solid var(--border);
}

.btn-secondary:hover:not(:disabled) {
    background: var(--bg-elevated);
    border-color: var(--accent-primary);
}

@media (min-width: 768px) {
    .mavlink-services {
        grid-template-columns: repeat(2, 1fr);
    }
}
